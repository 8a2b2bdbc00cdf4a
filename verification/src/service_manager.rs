//! The service manager: tells every client the port of the core server.

use vstd::prelude::*;

use crate::json::{json_text, member_of, no_fields, object, set_int, set_text, text, Json};
use crate::protocol::constants::{CMD_REQUEST_PORT, RESPONSE_REQUEST_PORT};
use crate::protocol::messages::WsMessage;

verus! {

/// What the answer to a request for the port holds.
pub open spec fn port_reply(core_port: u16, service_version: Seq<char>) -> Json {
    Json::Object(
        no_fields().insert("version"@, Json::Int(1)).insert(
            "msgid"@,
            Json::Int(RESPONSE_REQUEST_PORT as int),
        ).insert("dstPort"@, Json::Int(core_port as int)).insert(
            "seviceVer"@,
            Json::Text(service_version),
        ),
    )
}

/// Answers a message: a request for the port with the core server's port and
/// the service version, anything else not at all.
pub fn handle_message(msg: &WsMessage, service_version: &str, core_port: u16) -> (r: Option<String>)
    ensures
        match r {
            Some(s) => msg.msg_id == CMD_REQUEST_PORT && s@ == json_text(
                port_reply(core_port, service_version@),
            ),
            None => msg.msg_id != CMD_REQUEST_PORT,
        },
        r is Some <==> msg.msg_id == 20000,
{
    if msg.msg_id != CMD_REQUEST_PORT {
        return None;
    }
    let mut m = serde_json::Map::new();
    set_int(&mut m, "version", 1);
    set_int(&mut m, "msgid", RESPONSE_REQUEST_PORT as i64);
    set_int(&mut m, "dstPort", core_port as i64);
    set_text(&mut m, "seviceVer", service_version);
    Some(text(&object(m)))
}

// ---------------------------------------------------------------------------
// Laws
// ---------------------------------------------------------------------------

/// The client finds in the answer the number of the response, the port of the core
/// server and the version of the service, each under its name.
pub proof fn law_port_is_told(core_port: u16, service_version: Seq<char>)
    ensures
        ({
            let j = port_reply(core_port, service_version);
            &&& member_of(j, "version"@) == Some(Json::Int(1))
            &&& member_of(j, "msgid"@) == Some(Json::Int(50000))
            &&& member_of(j, "dstPort"@) == Some(Json::Int(core_port as int))
            &&& member_of(j, "seviceVer"@) == Some(Json::Text(service_version))
        }),
{
    reveal_strlit("version");
    reveal_strlit("msgid");
    reveal_strlit("dstPort");
    reveal_strlit("seviceVer");
    assert("msgid"@.len() == 5);
    assert("version"@.len() == 7);
    assert("dstPort"@.len() == 7);
    assert("version"@[0] != "dstPort"@[0]);
    assert("seviceVer"@.len() == 9);
}

} // verus!
