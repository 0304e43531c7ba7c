use vstd::prelude::*;

use crate::netcore::pb::{
    DspEnterZone, DspKickRole, DspLogin, DspMove, DspSrvMaintain, RspCreateRole, RspEnterZone,
    RspLogin, RspLoginRole, RspMove, RspPing, RspPingZzz,
};

verus! {

/// The protocol's message keys: requests (`Req*`), responses (`Rsp*`) and
/// server pushes (`Dsp*`).
#[derive(Clone, Copy, Debug, PartialEq, Eq, Structural)]
pub enum EKey {
    ReqLogin,
    RspLogin,
    ReqCreateRole,
    RspCreateRole,
    ReqLoginRole,
    RspLoginRole,
    ReqPing,
    RspPing,
    ReqPingZzz,
    RspPingZzz,
    ReqEnterZone,
    RspEnterZone,
    ReqMove,
    RspMove,
    DspLogin,
    DspSrvMaintain,
    DspKickRole,
    DspEnterZone,
    DspMove,
}

impl EKey {
    /// The key's value on the wire.
    pub open spec fn spec_value(self) -> u16 {
        match self {
            EKey::ReqLogin => 1,
            EKey::RspLogin => 2,
            EKey::ReqCreateRole => 3,
            EKey::RspCreateRole => 4,
            EKey::ReqLoginRole => 5,
            EKey::RspLoginRole => 6,
            EKey::ReqPing => 100,
            EKey::RspPing => 101,
            EKey::ReqPingZzz => 102,
            EKey::RspPingZzz => 103,
            EKey::ReqEnterZone => 200,
            EKey::RspEnterZone => 201,
            EKey::ReqMove => 300,
            EKey::RspMove => 301,
            EKey::DspLogin => 10000,
            EKey::DspSrvMaintain => 10001,
            EKey::DspKickRole => 10002,
            EKey::DspEnterZone => 10003,
            EKey::DspMove => 33005,
        }
    }

    /// The key a wire value names, if any.
    pub open spec fn spec_from_value(v: u16) -> Option<EKey> {
        if v == 1 {
            Some(EKey::ReqLogin)
        } else if v == 2 {
            Some(EKey::RspLogin)
        } else if v == 3 {
            Some(EKey::ReqCreateRole)
        } else if v == 4 {
            Some(EKey::RspCreateRole)
        } else if v == 5 {
            Some(EKey::ReqLoginRole)
        } else if v == 6 {
            Some(EKey::RspLoginRole)
        } else if v == 100 {
            Some(EKey::ReqPing)
        } else if v == 101 {
            Some(EKey::RspPing)
        } else if v == 102 {
            Some(EKey::ReqPingZzz)
        } else if v == 103 {
            Some(EKey::RspPingZzz)
        } else if v == 200 {
            Some(EKey::ReqEnterZone)
        } else if v == 201 {
            Some(EKey::RspEnterZone)
        } else if v == 300 {
            Some(EKey::ReqMove)
        } else if v == 301 {
            Some(EKey::RspMove)
        } else if v == 10000 {
            Some(EKey::DspLogin)
        } else if v == 10001 {
            Some(EKey::DspSrvMaintain)
        } else if v == 10002 {
            Some(EKey::DspKickRole)
        } else if v == 10003 {
            Some(EKey::DspEnterZone)
        } else if v == 33005 {
            Some(EKey::DspMove)
        } else {
            None
        }
    }

    pub fn as_u16(self) -> (v: u16)
        ensures
            v == self.spec_value(),
    {
        match self {
            EKey::ReqLogin => 1,
            EKey::RspLogin => 2,
            EKey::ReqCreateRole => 3,
            EKey::RspCreateRole => 4,
            EKey::ReqLoginRole => 5,
            EKey::RspLoginRole => 6,
            EKey::ReqPing => 100,
            EKey::RspPing => 101,
            EKey::ReqPingZzz => 102,
            EKey::RspPingZzz => 103,
            EKey::ReqEnterZone => 200,
            EKey::RspEnterZone => 201,
            EKey::ReqMove => 300,
            EKey::RspMove => 301,
            EKey::DspLogin => 10000,
            EKey::DspSrvMaintain => 10001,
            EKey::DspKickRole => 10002,
            EKey::DspEnterZone => 10003,
            EKey::DspMove => 33005,
        }
    }

    pub fn from_u16(v: u16) -> (k: Option<EKey>)
        ensures
            k == EKey::spec_from_value(v),
    {
        match v {
            1 => Some(EKey::ReqLogin),
            2 => Some(EKey::RspLogin),
            3 => Some(EKey::ReqCreateRole),
            4 => Some(EKey::RspCreateRole),
            5 => Some(EKey::ReqLoginRole),
            6 => Some(EKey::RspLoginRole),
            100 => Some(EKey::ReqPing),
            101 => Some(EKey::RspPing),
            102 => Some(EKey::ReqPingZzz),
            103 => Some(EKey::RspPingZzz),
            200 => Some(EKey::ReqEnterZone),
            201 => Some(EKey::RspEnterZone),
            300 => Some(EKey::ReqMove),
            301 => Some(EKey::RspMove),
            10000 => Some(EKey::DspLogin),
            10001 => Some(EKey::DspSrvMaintain),
            10002 => Some(EKey::DspKickRole),
            10003 => Some(EKey::DspEnterZone),
            33005 => Some(EKey::DspMove),
            _ => None,
        }
    }
}

/// Every key round-trips through its wire value, and a wire value names a key
/// only if that key has this value: the key table is a bijection between the
/// keys and the values it lists.
pub proof fn lemma_ekey_round_trip(k: EKey, v: u16)
    ensures
        EKey::spec_from_value(k.spec_value()) == Some(k),
        EKey::spec_from_value(v) matches Some(j) ==> j.spec_value() == v,
{
}

/// The wire values of the keys: login 1/2, role creation 3/4, role login
/// 5/6, ping 100/101, the second ping 102/103, zone entry 200/201, move
/// 300/301 (request/response), and the server pushes 10000 (login data),
/// 10001 (maintenance), 10002 (kick), 10003 (zone entry), 33005 (move); no
/// other value names a key.
pub proof fn lemma_ekey_values(v: u16)
    ensures
        EKey::ReqLogin.spec_value() == 1 && EKey::RspLogin.spec_value() == 2,
        EKey::ReqCreateRole.spec_value() == 3 && EKey::RspCreateRole.spec_value() == 4,
        EKey::ReqLoginRole.spec_value() == 5 && EKey::RspLoginRole.spec_value() == 6,
        EKey::ReqPing.spec_value() == 100 && EKey::RspPing.spec_value() == 101,
        EKey::ReqPingZzz.spec_value() == 102 && EKey::RspPingZzz.spec_value() == 103,
        EKey::ReqEnterZone.spec_value() == 200 && EKey::RspEnterZone.spec_value() == 201,
        EKey::ReqMove.spec_value() == 300 && EKey::RspMove.spec_value() == 301,
        EKey::DspLogin.spec_value() == 10000 && EKey::DspSrvMaintain.spec_value() == 10001,
        EKey::DspKickRole.spec_value() == 10002 && EKey::DspEnterZone.spec_value() == 10003,
        EKey::DspMove.spec_value() == 33005,
        EKey::spec_from_value(v) is Some <==> (1 <= v <= 6 || 100 <= v <= 103 || v == 200 || v
            == 201 || v == 300 || v == 301 || 10000 <= v <= 10003 || v == 33005),
        EKey::spec_from_value(v) matches Some(k) ==> k.spec_value() == v,
{
}

/// A message sent by the server, decoded for the key it came with.
#[derive(Clone, Debug)]
pub enum ServerMessage {
    RspLogin(RspLogin),
    RspCreateRole(RspCreateRole),
    RspLoginRole(RspLoginRole),
    RspPing(RspPing),
    RspPingZzz(RspPingZzz),
    RspEnterZone(RspEnterZone),
    RspMove(RspMove),
    DspLogin(DspLogin),
    DspSrvMaintain(DspSrvMaintain),
    DspKickRole(DspKickRole),
    DspEnterZone(DspEnterZone),
    DspMove(DspMove),
}

} // verus!
