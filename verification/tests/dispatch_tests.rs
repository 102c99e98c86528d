use resp_server::cache_store::CacheStore;
use resp_server::codec::encode;
use resp_server::connection::{process_command, RedisServer};
use resp_server::model::RespValue;

fn bulk(s: &str) -> RespValue {
    RespValue::BulkString(s.to_string())
}

fn err(s: &str) -> RespValue {
    RespValue::Error(s.to_string())
}

#[test]
fn scenario_set_foo_bar_then_get_foo() {
    let mut store = CacheStore::new();
    let set = process_command(vec![bulk("SET"), bulk("foo"), bulk("bar")], &mut store);
    assert_eq!(set, RespValue::SimpleString("OK".to_string()));
    let get = process_command(vec![bulk("GET"), bulk("foo")], &mut store);
    assert_eq!(get, bulk("bar"));
}

#[test]
fn scenario_get_missing_returns_null() {
    let mut store = CacheStore::new();
    let r = process_command(vec![bulk("GET"), bulk("missing")], &mut store);
    assert_eq!(r, RespValue::Null);
    assert_eq!(encode(&r), b"$-1\r\n".to_vec());
}

#[test]
fn scenario_echo_returns_argument_verbatim() {
    let mut store = CacheStore::new();
    let r = process_command(vec![bulk("ECHO"), bulk("hello")], &mut store);
    assert_eq!(r, bulk("hello"));
    // the original variant is preserved, whatever it is
    let r2 = process_command(
        vec![bulk("ECHO"), RespValue::SimpleString("hello".to_string())],
        &mut store,
    );
    assert_eq!(r2, RespValue::SimpleString("hello".to_string()));
    let r3 = process_command(vec![bulk("ECHO"), RespValue::Integer(5)], &mut store);
    assert_eq!(r3, RespValue::Integer(5));
}

#[test]
fn scenario_empty_command_array() {
    let mut store = CacheStore::new();
    let r = process_command(Vec::new(), &mut store);
    assert_eq!(r, err("ERR no command specified"));
}

#[test]
fn scenario_unknown_command() {
    let mut store = CacheStore::new();
    let r = process_command(vec![bulk("FOO")], &mut store);
    assert_eq!(r, err("ERR unknown command"));
}

#[test]
fn ping_always_answers_pong() {
    let mut store = CacheStore::new();
    for _ in 0..3 {
        let r = process_command(vec![bulk("PING")], &mut store);
        assert_eq!(r, RespValue::SimpleString("PONG".to_string()));
    }
    // extra arguments are ignored
    let r = process_command(vec![bulk("PING"), bulk("x")], &mut store);
    assert_eq!(r, RespValue::SimpleString("PONG".to_string()));
}

#[test]
fn repeated_get_of_unmodified_key_agrees() {
    let mut store = CacheStore::new();
    process_command(vec![bulk("SET"), bulk("k"), bulk("v")], &mut store);
    let first = process_command(vec![bulk("GET"), bulk("k")], &mut store);
    let second = process_command(vec![bulk("GET"), bulk("k")], &mut store);
    assert_eq!(first, second);
    assert_eq!(first, bulk("v"));
}

#[test]
fn set_arity_errors_mutate_nothing() {
    let mut store = CacheStore::new();
    let one = process_command(vec![bulk("SET")], &mut store);
    assert_eq!(one, err("ERR wrong number of arguments for 'set' command"));
    let two = process_command(vec![bulk("SET"), bulk("k")], &mut store);
    assert_eq!(two, err("ERR wrong number of arguments for 'set' command"));
    let get = process_command(vec![bulk("GET"), bulk("k")], &mut store);
    assert_eq!(get, RespValue::Null);
}

#[test]
fn get_arity_error() {
    let mut store = CacheStore::new();
    let r = process_command(vec![bulk("GET")], &mut store);
    assert_eq!(r, err("ERR wrong number of arguments for 'get' command"));
}

#[test]
fn echo_arity_error() {
    let mut store = CacheStore::new();
    let r = process_command(vec![bulk("ECHO")], &mut store);
    assert_eq!(r, err("ERR wrong number of arguments for 'echo' command"));
}

#[test]
fn command_name_is_case_insensitive() {
    let mut store = CacheStore::new();
    process_command(vec![bulk("set"), bulk("k"), bulk("v")], &mut store);
    let r = process_command(vec![bulk("gEt"), bulk("k")], &mut store);
    assert_eq!(r, bulk("v"));
}

#[test]
fn simple_string_works_as_command_name() {
    let mut store = CacheStore::new();
    let r = process_command(
        vec![RespValue::SimpleString("PING".to_string())],
        &mut store,
    );
    assert_eq!(r, RespValue::SimpleString("PONG".to_string()));
}

#[test]
fn binary_command_name_is_decoded() {
    let mut store = CacheStore::new();
    let r = process_command(
        vec![RespValue::BinaryBulkString(b"ping".to_vec())],
        &mut store,
    );
    assert_eq!(r, RespValue::SimpleString("PONG".to_string()));
}

#[test]
fn non_text_command_is_invalid() {
    let mut store = CacheStore::new();
    let r = process_command(vec![RespValue::Integer(1)], &mut store);
    assert_eq!(r, err("ERR invalid command"));
    let r2 = process_command(
        vec![RespValue::BinaryBulkString(vec![0xff])],
        &mut store,
    );
    assert_eq!(r2, err("ERR invalid command"));
}

#[test]
fn non_text_key_and_value_are_invalid() {
    let mut store = CacheStore::new();
    let bad_key = process_command(
        vec![bulk("SET"), RespValue::Null, bulk("v")],
        &mut store,
    );
    assert_eq!(bad_key, err("ERR invalid key"));
    let bad_value = process_command(
        vec![bulk("SET"), bulk("k"), RespValue::Integer(3)],
        &mut store,
    );
    assert_eq!(bad_value, err("ERR invalid value"));
    let bad_get_key = process_command(
        vec![bulk("GET"), RespValue::BinaryBulkString(vec![0xfe])],
        &mut store,
    );
    assert_eq!(bad_get_key, err("ERR invalid key"));
}

#[test]
fn binary_key_and_value_are_decoded() {
    let mut store = CacheStore::new();
    let set = process_command(
        vec![
            bulk("SET"),
            RespValue::BinaryBulkString(b"k".to_vec()),
            RespValue::BinaryBulkString(b"v".to_vec()),
        ],
        &mut store,
    );
    assert_eq!(set, RespValue::SimpleString("OK".to_string()));
    let get = process_command(vec![bulk("GET"), bulk("k")], &mut store);
    assert_eq!(get, bulk("v"));
}

#[test]
fn server_handle_starts_with_empty_store() {
    let mut server = RedisServer::new("127.0.0.1".to_string(), 6379);
    assert_eq!(server.host, "127.0.0.1".to_string());
    assert_eq!(server.port, 6379);
    let r = process_command(vec![bulk("GET"), bulk("k")], &mut server.store);
    assert_eq!(r, RespValue::Null);
}
