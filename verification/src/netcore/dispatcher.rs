use vstd::prelude::*;

use vstd::slice::slice_to_vec;
use vstd::utf8::encode_utf8;

use crate::netcore::cmd_ext::{EKey, ServerMessage};
use crate::netcore::codec::{spec_decode, CodecError, PacketCodec};
use crate::reflect::dynamic_decoding;
use crate::registry::{
    describable, looked_up, ProtocolMetaEntry, ProtocolRegistry, RegistryView, same_but_cache,
};
use crate::netcore::event::{NetEvent, RoleInfo};
use crate::netcore::pb::{RoleLoginData, RoleSummaryData, Vector};

verus! {

/// A reported role carries exactly the fields of the role summary.
pub open spec fn role_matches(info: RoleInfo, r: RoleSummaryData) -> bool {
    &&& info.id == r.id
    &&& info.cid == r.cid
    &&& info.lv == r.lv
    &&& info.name@ == r.name@
    &&& info.icon == r.icon
}

/// Reported roles match the summaries one for one, in order.
pub open spec fn roles_match(infos: Seq<RoleInfo>, rs: Seq<RoleSummaryData>) -> bool {
    &&& infos.len() == rs.len()
    &&& forall|i: int| 0 <= i < rs.len() ==> role_matches(#[trigger] infos[i], rs[i])
}

/// The `regain` flag of optional login data; false when absent.
pub open spec fn regain_of(d: Option<RoleLoginData>) -> bool {
    match d {
        Some(d) => d.regain,
        None => false,
    }
}

/// A position's coordinates, or the origin when absent.
pub open spec fn coords_of(p: Option<Vector>) -> (i64, i64, i64) {
    match p {
        Some(p) => (p.x, p.y, p.z),
        None => (0, 0, 0),
    }
}

/// The event an error frame for a known key becomes: login, role creation
/// and role login report the code in their response event (other fields
/// empty), the pings their pong, every other key a raw message without body.
pub open spec fn error_response_event(key: EKey, err: u16, ev: NetEvent) -> bool {
match key {
            EKey::RspLogin => ev matches NetEvent::LoginResponse {
                err: e,
                fast,
                roles,
                account,
                server_time,
            } && e == err as i32 && !fast && roles@.len() == 0 && account@.len() == 0
                && server_time == 0,
            EKey::RspCreateRole => ev matches NetEvent::CreateRoleResponse { err: e, role } && e
                == err as i32 && role is None,
            EKey::RspLoginRole => ev matches NetEvent::LoginRoleResponse { err: e, regain } && e
                == err as i32 && !regain,
            EKey::RspPing => ev is Pong,
            EKey::RspPingZzz => ev is PongZzz,
            _ => ev matches NetEvent::RawMessage { key: k, err: e, body } && k == key.spec_value()
                && e == err && body@.len() == 0,
        }
}

/// Converts an error frame of a known key into its event.
pub fn convert_error_response(key: EKey, err: u16) -> (ev: NetEvent)
    ensures
        error_response_event(key, err, ev),
{
    let err_i32 = err as i32;
    match key {
        EKey::RspLogin => NetEvent::LoginResponse {
            err: err_i32,
            fast: false,
            roles: Vec::new(),
            account: String::new(),
            server_time: 0,
        },
        EKey::RspCreateRole => NetEvent::CreateRoleResponse { err: err_i32, role: None },
        EKey::RspLoginRole => NetEvent::LoginRoleResponse { err: err_i32, regain: false },
        EKey::RspPing => NetEvent::Pong,
        EKey::RspPingZzz => NetEvent::PongZzz,
        _ => NetEvent::RawMessage { key: key.as_u16(), err, body: Vec::new() },
    }
}

fn role_info(r: &RoleSummaryData) -> (info: RoleInfo)
    ensures
        role_matches(info, *r),
{
    RoleInfo { id: r.id, cid: r.cid, lv: r.lv, name: r.name.clone(), icon: r.icon }
}

fn regain(d: &Option<RoleLoginData>) -> (b: bool)
    ensures
        b == regain_of(*d),
{
    match d {
        Some(d) => d.regain,
        None => false,
    }
}

fn coords(p: &Option<Vector>) -> (c: (i64, i64, i64))
    ensures
        c == coords_of(*p),
{
    match p {
        Some(p) => (p.x, p.y, p.z),
        None => (0, 0, 0),
    }
}

/// The event a decoded server message becomes; every field is carried over,
/// roles one for one, absent login data as `regain == false`, absent
/// positions as the origin.
pub open spec fn server_message_event(msg: ServerMessage, ev: NetEvent) -> bool {
    match msg {
            ServerMessage::RspLogin(r) => ev matches NetEvent::LoginResponse {
                err,
                fast,
                roles,
                account,
                server_time,
            } && err == r.err && fast == r.fast && roles_match(roles@, r.roles@) && account@
                == r.account@ && server_time == r.server_time,
            ServerMessage::RspCreateRole(r) => ev matches NetEvent::CreateRoleResponse {
                err,
                role,
            } && err == r.err && (match r.role {
                Some(s) => role matches Some(info) && role_matches(info, s),
                None => role is None,
            }),
            ServerMessage::RspLoginRole(r) => ev matches NetEvent::LoginRoleResponse {
                err,
                regain,
            } && err == r.err && regain == regain_of(r.data),
            ServerMessage::RspPing(_) => ev is Pong,
            ServerMessage::RspPingZzz(_) => ev is PongZzz,
            ServerMessage::RspEnterZone(_) => ev is EnterZoneResponse,
            ServerMessage::RspMove(r) => ev matches NetEvent::MoveResponse { role_id, x, y, z }
                && role_id == r.role_id && (x, y, z) == coords_of(r.pos),
            ServerMessage::DspLogin(d) => ev matches NetEvent::LoginData { regain } && regain
                == regain_of(d.data),
            ServerMessage::DspSrvMaintain(d) => ev matches NetEvent::ServerMaintain {
                reboot_time,
                shutdown_time,
            } && reboot_time == d.reboot_time && shutdown_time == d.shutdown_time,
            ServerMessage::DspKickRole(d) => ev matches NetEvent::KickRole { kick_type }
                && kick_type == d.ty,
            ServerMessage::DspEnterZone(_) => ev is EnterZoneNotify,
            ServerMessage::DspMove(d) => ev matches NetEvent::MoveSync { role_id, x, y, z }
                && role_id == d.role_id && (x, y, z) == coords_of(d.pos),
        }
}

/// Converts a decoded server message into its event.
pub fn convert_server_message(msg: ServerMessage) -> (ev: NetEvent)
    ensures
        server_message_event(msg, ev),
{
    match msg {
        ServerMessage::RspLogin(rsp) => {
            let mut roles: Vec<RoleInfo> = Vec::new();
            let mut i: usize = 0;
            while i < rsp.roles.len()
                invariant
                    i <= rsp.roles@.len(),
                    roles@.len() == i,
                    forall|j: int| 0 <= j < i ==> role_matches(#[trigger] roles@[j], rsp.roles@[j]),
                decreases rsp.roles@.len() - i,
            {
                roles.push(role_info(&rsp.roles[i]));
                i = i + 1;
            }
            NetEvent::LoginResponse {
                err: rsp.err,
                fast: rsp.fast,
                roles,
                account: rsp.account,
                server_time: rsp.server_time,
            }
        },
        ServerMessage::RspCreateRole(rsp) => {
            let role = match &rsp.role {
                Some(r) => Some(role_info(r)),
                None => None,
            };
            NetEvent::CreateRoleResponse { err: rsp.err, role }
        },
        ServerMessage::RspLoginRole(rsp) => NetEvent::LoginRoleResponse {
            err: rsp.err,
            regain: regain(&rsp.data),
        },
        ServerMessage::RspPing(_) => NetEvent::Pong,
        ServerMessage::RspPingZzz(_) => NetEvent::PongZzz,
        ServerMessage::RspEnterZone(_) => NetEvent::EnterZoneResponse,
        ServerMessage::RspMove(rsp) => {
            let (x, y, z) = coords(&rsp.pos);
            NetEvent::MoveResponse { role_id: rsp.role_id, x, y, z }
        },
        ServerMessage::DspLogin(dsp) => NetEvent::LoginData { regain: regain(&dsp.data) },
        ServerMessage::DspSrvMaintain(dsp) => NetEvent::ServerMaintain {
            reboot_time: dsp.reboot_time,
            shutdown_time: dsp.shutdown_time,
        },
        ServerMessage::DspKickRole(dsp) => NetEvent::KickRole { kick_type: dsp.ty },
        ServerMessage::DspEnterZone(_) => NetEvent::EnterZoneNotify,
        ServerMessage::DspMove(dsp) => {
            let (x, y, z) = coords(&dsp.pos);
            NetEvent::MoveSync { role_id: dsp.role_id, x, y, z }
        },
    }
}

/// A decoded server message becomes the event of the same name, each event
/// field the same-named message field: roles one for one with id, cid,
/// level, name and icon; the `regain` flag of login data, false when the data
/// is absent; a position's x, y, z, the origin when absent; the kick type
/// from the message's type field.
pub proof fn lemma_server_message_events(msg: ServerMessage, ev: NetEvent)
    requires
        server_message_event(msg, ev),
    ensures
        match msg {
            ServerMessage::RspLogin(r) => ev matches NetEvent::LoginResponse {
                err,
                fast,
                roles,
                account,
                server_time,
            } && err == r.err && fast == r.fast && account@ == r.account@ && server_time
                == r.server_time && roles@.len() == r.roles@.len() && forall|i: int|
                0 <= i < r.roles@.len() ==> (#[trigger] roles@[i]).id == r.roles@[i].id
                    && roles@[i].cid == r.roles@[i].cid && roles@[i].lv == r.roles@[i].lv
                    && roles@[i].name@ == r.roles@[i].name@ && roles@[i].icon == r.roles@[i].icon,
            ServerMessage::RspCreateRole(r) => ev matches NetEvent::CreateRoleResponse {
                err,
                role,
            } && err == r.err && (r.role is None <==> role is None) && (r.role matches Some(s)
                ==> role matches Some(info) && info.id == s.id && info.cid == s.cid && info.lv
                == s.lv && info.name@ == s.name@ && info.icon == s.icon),
            ServerMessage::RspLoginRole(r) => ev matches NetEvent::LoginRoleResponse {
                err,
                regain,
            } && err == r.err && (regain <==> (r.data matches Some(d) && d.regain)),
            ServerMessage::RspPing(_) => ev is Pong,
            ServerMessage::RspPingZzz(_) => ev is PongZzz,
            ServerMessage::RspEnterZone(_) => ev is EnterZoneResponse,
            ServerMessage::RspMove(r) => ev matches NetEvent::MoveResponse { role_id, x, y, z }
                && role_id == r.role_id && (r.pos matches Some(p) ==> x == p.x && y == p.y && z
                == p.z) && (r.pos is None ==> x == 0 && y == 0 && z == 0),
            ServerMessage::DspLogin(d) => ev matches NetEvent::LoginData { regain } && (regain <==> (
            d.data matches Some(x) && x.regain)),
            ServerMessage::DspSrvMaintain(d) => ev matches NetEvent::ServerMaintain {
                reboot_time,
                shutdown_time,
            } && reboot_time == d.reboot_time && shutdown_time == d.shutdown_time,
            ServerMessage::DspKickRole(d) => ev matches NetEvent::KickRole { kick_type }
                && kick_type == d.ty,
            ServerMessage::DspEnterZone(_) => ev is EnterZoneNotify,
            ServerMessage::DspMove(d) => ev matches NetEvent::MoveSync { role_id, x, y, z }
                && role_id == d.role_id && (d.pos matches Some(p) ==> x == p.x && y == p.y && z
                == p.z) && (d.pos is None ==> x == 0 && y == 0 && z == 0),
        },
{
    match msg {
        ServerMessage::RspLogin(r) => {
            if let NetEvent::LoginResponse { roles, .. } = ev {
                assert forall|i: int| 0 <= i < r.roles@.len() implies (#[trigger] roles@[i]).id
                    == r.roles@[i].id && roles@[i].cid == r.roles@[i].cid && roles@[i].lv
                    == r.roles@[i].lv && roles@[i].name@ == r.roles@[i].name@ && roles@[i].icon
                    == r.roles@[i].icon by {
                    assert(role_matches(roles@[i], r.roles@[i]));
                }
            }
        },
        _ => {},
    }
}

/// An error frame of a known key becomes: for login, a login response with
/// the code and no roles, account or time, not fast; for role creation, a
/// creation response with the code and no role; for role login, a role-login
/// response with the code, not regained; for the pings, their pong; for any
/// other key, a raw message with the key's number, the code and no body.
pub proof fn lemma_error_response_events(key: EKey, err: u16, ev: NetEvent)
    requires
        error_response_event(key, err, ev),
    ensures
        match key {
            EKey::RspLogin => ev matches NetEvent::LoginResponse {
                err: e,
                fast,
                roles,
                account,
                server_time,
            } && e == err as i32 && !fast && roles@.len() == 0 && account@.len() == 0
                && server_time == 0,
            EKey::RspCreateRole => ev matches NetEvent::CreateRoleResponse { err: e, role }
                && e == err as i32 && role is None,
            EKey::RspLoginRole => ev matches NetEvent::LoginRoleResponse { err: e, regain }
                && e == err as i32 && !regain,
            EKey::RspPing => ev is Pong,
            EKey::RspPingZzz => ev is PongZzz,
            _ => ev matches NetEvent::RawMessage { key: k, err: e, body } && EKey::spec_from_value(k)
                == Some(key) && e == err && body@.len() == 0,
        },
{
    crate::netcore::cmd_ext::lemma_ekey_round_trip(key, 0);
}

/// The body of the event reporting an undecodable frame: the UTF-8 bytes of
/// "codec error: " followed by the error's description.
pub open spec fn codec_error_body(e: CodecError) -> Seq<u8> {
    encode_utf8("codec error: "@ + e.spec_message())
}

/// The event of the generic channel for a decoded frame `(k, e, b)`: a key
/// the registry does not know gives a raw message with the frame's body; a
/// known key gives, for an error frame, a raw message without body, and
/// otherwise, when the registry can describe the key's message and the body
/// decodes with that descriptor, the generic message with the registered
/// event name and the decoded fields, else the raw message with the body.
pub open spec fn generic_event(k: u16, e: u16, b: Seq<u8>, reg: RegistryView, ev: NetEvent) -> bool {
    if reg.meta.contains_key(k) {
        let meta = reg.meta[k];
        if e != 0 {
            ev matches NetEvent::RawMessage { key, err, body } && key == k && err == e
                && body@.len() == 0
        } else {
            let raw = ev matches NetEvent::RawMessage { key, err, body } && key == k && err == e
                && body@ == b;
            let decoded = if describable(reg, meta.message@) {
                dynamic_decoding(looked_up(reg, meta.message@)->0, b)
            } else {
                None
            };
            match decoded {
                Some(m) => ev matches NetEvent::GenericMessage { event_name, key, err, fields }
                    && event_name@ == meta.event_name@ && key == k && err == e && fields == m,
                None => raw,
            }
        }
    } else {
        ev matches NetEvent::RawMessage { key, err, body } && key == k && err == e && body@ == b
    }
}

/// Whether the compiled decoder, given `key` and bytes `b`, may return `r`.
pub open spec fn decoder_gives<F: Fn(EKey, &[u8]) -> Result<ServerMessage, String>>(
    decode: F,
    key: EKey,
    b: Seq<u8>,
    r: Result<ServerMessage, String>,
) -> bool {
    exists|s: &[u8]| s@ == b && #[trigger] decode.ensures((key, s), r)
}

/// Dual-channel dispatch of a raw frame. A frame that does not decode
/// becomes a raw message with key and code 0 describing the codec error. A
/// frame whose key the compiled key table knows goes to the compiled channel
/// first: an error frame becomes that key's error event; otherwise the body
/// goes to `decode_server_message` (the compiled protobuf decoder) and a
/// decoded message becomes its event. Everything else falls back to the
/// registry's generic channel.
pub fn dispatch<F: Fn(EKey, &[u8]) -> Result<ServerMessage, String>>(
    raw: &[u8],
    registry: &mut ProtocolRegistry,
    decode_server_message: F,
) -> (ev: NetEvent)
    requires
        forall|k: EKey, s: &[u8]| decode_server_message.requires((k, s)),
    ensures
        same_but_cache(final(registry)@, old(registry)@),
        match spec_decode(raw@) {
            Err(x) => ev matches NetEvent::RawMessage { key, err, body } && key == 0 && err == 0
                && body@ == codec_error_body(x),
            Ok((k, e, b)) => match EKey::spec_from_value(k) {
                Some(key) => if e != 0 {
                    error_response_event(key, e, ev)
                } else {
                    ||| exists|m: ServerMessage| #[trigger]
                        decoder_gives(decode_server_message, key, b, Ok(m)) && server_message_event(m, ev)
                    ||| (exists|x: String| #[trigger]
                        decoder_gives(decode_server_message, key, b, Err(x)))
                        && generic_event(k, e, b, old(registry)@, ev)
                },
                None => generic_event(k, e, b, old(registry)@, ev),
            },
        },
{
    let (key_u16, err_u16, body) = match PacketCodec::decode(raw) {
        Ok(v) => v,
        Err(e) => {
            let mut text = String::new();
            text.append("codec error: ");
            let m = e.message();
            text.append(m.as_str());
            return NetEvent::RawMessage { key: 0, err: 0, body: slice_to_vec(text.as_str().as_bytes()) };
        },
    };
    match EKey::from_u16(key_u16) {
        Some(key) => {
            if err_u16 != 0 {
                return convert_error_response(key, err_u16);
            }
            let decoded = decode_server_message(key, body);
            match decoded {
                Ok(msg) => {
                    assert(decoder_gives(decode_server_message, key, body@, Ok(msg)));
                    let ghost m = msg;
                    let ev = convert_server_message(msg);
                    assert(server_message_event(m, ev));
                    return ev;
                },
                Err(x) => {
                    assert(decoder_gives(decode_server_message, key, body@, Err(x)));
                },
            }
        },
        None => {},
    }
    generic_channel(key_u16, err_u16, body, registry)
}

/// The event of the generic channel for a success frame of a known key, given
/// what decoding its body with the registry gave: the decoded message under
/// the key's event name, or, when decoding failed, the raw message with the
/// body.
pub fn generic_message_event(
    key: u16,
    body: &[u8],
    meta: ProtocolMetaEntry,
    decoded: Result<prost_reflect::DynamicMessage, String>,
) -> (ev: NetEvent)
    ensures
        match decoded {
            Ok(m) => ev == NetEvent::GenericMessage { event_name: meta.event_name, key, err: 0, fields: m },
            Err(_) => ev matches NetEvent::RawMessage { key: k, err, body: b } && k == key && err == 0
                && b@ == body@,
        },
{
    match decoded {
        Ok(fields) => NetEvent::GenericMessage { event_name: meta.event_name, key, err: 0, fields },
        Err(_) => NetEvent::RawMessage { key, err: 0, body: slice_to_vec(body) },
    }
}

fn generic_channel(key: u16, err: u16, body: &[u8], registry: &mut ProtocolRegistry) -> (ev:
    NetEvent)
    ensures
        same_but_cache(final(registry)@, old(registry)@),
        generic_event(key, err, body@, old(registry)@, ev),
{
    match registry.get(key) {
        Some(entry) => {
            let meta = entry.duplicate();
            if err != 0 {
                let ev = NetEvent::RawMessage { key, err, body: Vec::new() };
                return ev;
            }
            let decoded = registry.decode_generic(meta.message.as_str(), body);
            generic_message_event(key, body, meta, decoded)
        },
        None => NetEvent::RawMessage { key, err, body: slice_to_vec(body) },
    }
}

} // verus!
