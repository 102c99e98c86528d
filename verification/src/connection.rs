//! The command dispatcher and the per-process server handle. A decoded
//! top-level array is read positionally as `[command, arg1, arg2, ...]`;
//! only `SET` writes the store, and command errors are answers, not faults.

use crate::cache_store::{read_model, CacheStore, EntrySnap};
use crate::model::{models_of, RespValue, ValueModel};
use crate::text::{str_eq, to_upper, upper_of, utf8_to_string};
use vstd::prelude::*;
use vstd::utf8::{decode_utf8, valid_utf8};

verus! {

/// The text a value resolves to when used as a command word, key or value:
/// the characters of a simple or bulk string, the UTF-8 decoding of a binary
/// bulk string, nothing for every other variant.
pub open spec fn text_of(v: ValueModel) -> Option<Seq<char>> {
    match v {
        ValueModel::SimpleString(s) => Some(s),
        ValueModel::BulkString(s) => Some(s),
        ValueModel::BinaryBulkString(b) => if valid_utf8(b) {
            Some(decode_utf8(b))
        } else {
            None
        },
        _ => None,
    }
}

/// Whether the first element of `cmds` resolves to text whose uppercase form
/// is `name`.
pub open spec fn is_command(cmds: Seq<ValueModel>, name: Seq<char>) -> bool {
    cmds.len() > 0 && (text_of(cmds[0]) matches Some(t) && upper_of(t) == name)
}

/// The store and the response after dispatching the command named `name`
/// (already case-normalized) with arguments `cmds[1..]` against store model
/// `m` at instant `now`.
pub open spec fn dispatch_named(
    name: Seq<char>,
    cmds: Seq<ValueModel>,
    m: Map<Seq<char>, EntrySnap>,
    now: u64,
) -> (Map<Seq<char>, EntrySnap>, ValueModel) {
    if name == "PING"@ {
        (m, ValueModel::SimpleString("PONG"@))
    } else if name == "SET"@ {
        if cmds.len() < 3 {
            (m, ValueModel::Error("ERR wrong number of arguments for 'set' command"@))
        } else {
            match text_of(cmds[1]) {
                None => (m, ValueModel::Error("ERR invalid key"@)),
                Some(k) => match text_of(cmds[2]) {
                    None => (m, ValueModel::Error("ERR invalid value"@)),
                    Some(v) => (
                        m.insert(k, EntrySnap { value: v, expires_at: None }),
                        ValueModel::SimpleString("OK"@),
                    ),
                },
            }
        }
    } else if name == "GET"@ {
        if cmds.len() < 2 {
            (m, ValueModel::Error("ERR wrong number of arguments for 'get' command"@))
        } else {
            match text_of(cmds[1]) {
                None => (m, ValueModel::Error("ERR invalid key"@)),
                Some(k) => match read_model(m, k, now) {
                    Some(v) => (m, ValueModel::BulkString(v)),
                    None => (m, ValueModel::Null),
                },
            }
        }
    } else if name == "ECHO"@ {
        if cmds.len() < 2 {
            (m, ValueModel::Error("ERR wrong number of arguments for 'echo' command"@))
        } else {
            (m, cmds[1])
        }
    } else {
        (m, ValueModel::Error("ERR unknown command"@))
    }
}

/// The store and the response after dispatching the decoded request `cmds`
/// against store model `m` at instant `now`.
pub open spec fn dispatch_model(
    cmds: Seq<ValueModel>,
    m: Map<Seq<char>, EntrySnap>,
    now: u64,
) -> (Map<Seq<char>, EntrySnap>, ValueModel) {
    if cmds.len() == 0 {
        (m, ValueModel::Error("ERR no command specified"@))
    } else {
        match text_of(cmds[0]) {
            None => (m, ValueModel::Error("ERR invalid command"@)),
            Some(t) => dispatch_named(upper_of(t), cmds, m, now),
        }
    }
}

/// The text `v` resolves to, as an owned string.
fn value_text(v: &RespValue) -> (r: Option<String>)
    ensures
        match r {
            Some(s) => text_of(v@) == Some(s@),
            None => text_of(v@) is None,
        },
{
    match v {
        RespValue::SimpleString(s) => Some(s.clone()),
        RespValue::BulkString(s) => Some(s.clone()),
        RespValue::BinaryBulkString(b) => utf8_to_string(b),
        _ => None,
    }
}

/// Interprets one decoded request against the store and produces the
/// response, exactly as [`dispatch_model`] says for the instant at which the
/// store's clock was read. Only `SET` mutates the store.
pub fn process_command(commands: Vec<RespValue>, store: &mut CacheStore) -> (r: RespValue)
    requires
        old(store).wf(),
    ensures
        final(store).wf(),
        exists|now: u64|
            (final(store)@, r@) == dispatch_model(models_of(commands@), old(store)@, now),
{
    let ghost cmds = models_of(commands@);
    let ghost m0 = store@;
    if commands.len() == 0 {
        let r = RespValue::Error("ERR no command specified".to_owned());
        proof {
            assert((final(store)@, r@) == dispatch_model(cmds, m0, 0u64));
        }
        return r;
    }
    proof {
        assert(cmds[0] == commands@[0]@);
        assert(cmds.len() == commands@.len());
    }
    let cmd_text = match value_text(&commands[0]) {
        Some(t) => t,
        None => {
            let r = RespValue::Error("ERR invalid command".to_owned());
            proof {
                assert((final(store)@, r@) == dispatch_model(cmds, m0, 0u64));
            }
            return r;
        },
    };
    let name = to_upper(cmd_text.as_str());
    if str_eq(name.as_str(), "PING") {
        let r = RespValue::SimpleString("PONG".to_owned());
        proof {
            assert((final(store)@, r@) == dispatch_model(cmds, m0, 0u64));
        }
        r
    } else if str_eq(name.as_str(), "SET") {
        if commands.len() < 3 {
            let r = RespValue::Error("ERR wrong number of arguments for 'set' command".to_owned());
            proof {
                assert((final(store)@, r@) == dispatch_model(cmds, m0, 0u64));
            }
            return r;
        }
        proof {
            assert(cmds[1] == commands@[1]@);
            assert(cmds[2] == commands@[2]@);
        }
        let key = match value_text(&commands[1]) {
            Some(k) => k,
            None => {
                let r = RespValue::Error("ERR invalid key".to_owned());
                proof {
                    assert((final(store)@, r@) == dispatch_model(cmds, m0, 0u64));
                }
                return r;
            },
        };
        let value = match value_text(&commands[2]) {
            Some(v) => v,
            None => {
                let r = RespValue::Error("ERR invalid value".to_owned());
                proof {
                    assert((final(store)@, r@) == dispatch_model(cmds, m0, 0u64));
                }
                return r;
            },
        };
        store.set(key, value, None);
        let r = RespValue::SimpleString("OK".to_owned());
        proof {
            assert((final(store)@, r@) == dispatch_model(cmds, m0, 0u64));
        }
        r
    } else if str_eq(name.as_str(), "GET") {
        if commands.len() < 2 {
            let r = RespValue::Error("ERR wrong number of arguments for 'get' command".to_owned());
            proof {
                assert((final(store)@, r@) == dispatch_model(cmds, m0, 0u64));
            }
            return r;
        }
        proof {
            assert(cmds[1] == commands@[1]@);
        }
        let key = match value_text(&commands[1]) {
            Some(k) => k,
            None => {
                let r = RespValue::Error("ERR invalid key".to_owned());
                proof {
                    assert((final(store)@, r@) == dispatch_model(cmds, m0, 0u64));
                }
                return r;
            },
        };
        let looked_up = store.get(key.as_str());
        let ghost now = choose|now: u64|
            match looked_up {
                Some(v) => read_model(store@, key@, now) == Some(v@),
                None => read_model(store@, key@, now) is None,
            };
        match looked_up {
            Some(v) => {
                let r = RespValue::BulkString(v);
                proof {
                    assert((final(store)@, r@) == dispatch_model(cmds, m0, now));
                }
                r
            },
            None => {
                let r = RespValue::Null;
                proof {
                    assert((final(store)@, r@) == dispatch_model(cmds, m0, now));
                }
                r
            },
        }
    } else if str_eq(name.as_str(), "ECHO") {
        if commands.len() < 2 {
            let r = RespValue::Error("ERR wrong number of arguments for 'echo' command".to_owned());
            proof {
                assert((final(store)@, r@) == dispatch_model(cmds, m0, 0u64));
            }
            return r;
        }
        proof {
            assert(cmds[1] == commands@[1]@);
        }
        let r = commands[1].clone();
        proof {
            assert((final(store)@, r@) == dispatch_model(cmds, m0, 0u64));
        }
        r
    } else {
        let r = RespValue::Error("ERR unknown command".to_owned());
        proof {
            assert((final(store)@, r@) == dispatch_model(cmds, m0, 0u64));
        }
        r
    }
}

/// The per-process server: the address it should listen on and the store
/// all its connections share. The embedding program owns the listener, the
/// connection tasks and the lock around this value; the store is created
/// once here and lives as long as the process.
pub struct RedisServer {
    pub host: String,
    pub port: u16,
    pub store: CacheStore,
}

impl RedisServer {
    /// A server handle for `host:port` with a fresh, empty store.
    pub fn new(host: String, port: u16) -> (r: RedisServer)
        ensures
            r.host@ == host@,
            r.port == port,
            r.store.wf(),
            r.store@ == Map::<Seq<char>, EntrySnap>::empty(),
    {
        RedisServer { host, port, store: CacheStore::new() }
    }
}

/// Law: `PING` always answers `PONG`; `GET` never changes the store; and on
/// a key whose entry does not expire, `GET` answers the same at every pair
/// of instants — so repeating either command repeats its answer. (A key
/// whose ttl runs out between two reads does change its answer.)
pub proof fn lemma_dispatch_idempotent(
    cmds: Seq<ValueModel>,
    m: Map<Seq<char>, EntrySnap>,
    now1: u64,
    now2: u64,
)
    ensures
        is_command(cmds, "PING"@) ==> dispatch_model(cmds, m, now1) == (
            m,
            ValueModel::SimpleString("PONG"@),
        ),
        is_command(cmds, "GET"@) ==> dispatch_model(cmds, m, now1).0 == m,
        is_command(cmds, "GET"@) && cmds.len() >= 2 && (text_of(cmds[1]) matches Some(k)
            && (m.contains_key(k) ==> m[k].expires_at is None)) ==> dispatch_model(
            cmds,
            m,
            now1,
        ).1 == dispatch_model(cmds, m, now2).1,
{
    lemma_command_names_distinct();
}

/// Law: `SET` with fewer than 3 elements, and `GET` or `ECHO` with fewer
/// than 2, answer the documented arity error and leave the store untouched.
pub proof fn lemma_arity_errors(cmds: Seq<ValueModel>, m: Map<Seq<char>, EntrySnap>, now: u64)
    ensures
        is_command(cmds, "SET"@) && cmds.len() < 3 ==> dispatch_model(cmds, m, now) == (
            m,
            ValueModel::Error("ERR wrong number of arguments for 'set' command"@),
        ),
        is_command(cmds, "GET"@) && cmds.len() < 2 ==> dispatch_model(cmds, m, now) == (
            m,
            ValueModel::Error("ERR wrong number of arguments for 'get' command"@),
        ),
        is_command(cmds, "ECHO"@) && cmds.len() < 2 ==> dispatch_model(cmds, m, now) == (
            m,
            ValueModel::Error("ERR wrong number of arguments for 'echo' command"@),
        ),
{
    lemma_command_names_distinct();
}

/// The four command names differ pairwise.
proof fn lemma_command_names_distinct()
    ensures
        "PING"@ != "SET"@,
        "PING"@ != "GET"@,
        "PING"@ != "ECHO"@,
        "SET"@ != "GET"@,
        "SET"@ != "ECHO"@,
        "GET"@ != "ECHO"@,
{
    reveal_strlit("PING");
    reveal_strlit("SET");
    reveal_strlit("GET");
    reveal_strlit("ECHO");
    assert("SET"@[0] == 'S' && "GET"@[0] == 'G');
    assert("PING"@.len() == 4 && "SET"@.len() == 3 && "GET"@.len() == 3 && "ECHO"@.len() == 4);
    assert("PING"@[0] == 'P' && "ECHO"@[0] == 'E');
}

} // verus!
