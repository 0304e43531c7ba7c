use vstd::prelude::*;

verus! {

/// A role as the login response lists it.
#[derive(Clone, Debug)]
pub struct RoleSummaryData {
    pub id: i64,
    pub cid: i64,
    pub lv: i64,
    pub name: String,
    pub icon: i64,
}

#[derive(Clone, Debug)]
pub struct RspLogin {
    pub err: i32,
    pub fast: bool,
    pub roles: Vec<RoleSummaryData>,
    pub account: String,
    pub server_time: i64,
}

#[derive(Clone, Debug)]
pub struct RspCreateRole {
    pub err: i32,
    pub role: Option<RoleSummaryData>,
}

/// Login data of a role: whether the role regained a running session.
#[derive(Clone, Debug)]
pub struct RoleLoginData {
    pub regain: bool,
}

#[derive(Clone, Debug)]
pub struct RspLoginRole {
    pub err: i32,
    pub data: Option<RoleLoginData>,
}

#[derive(Clone, Debug)]
pub struct RspPing {}

#[derive(Clone, Debug)]
pub struct RspPingZzz {}

#[derive(Clone, Debug)]
pub struct RspEnterZone {}

/// A position in a zone.
#[derive(Clone, Copy, Debug)]
pub struct Vector {
    pub x: i64,
    pub y: i64,
    pub z: i64,
}

#[derive(Clone, Debug)]
pub struct RspMove {
    pub role_id: i64,
    pub pos: Option<Vector>,
}

#[derive(Clone, Debug)]
pub struct DspLogin {
    pub data: Option<RoleLoginData>,
}

#[derive(Clone, Debug)]
pub struct DspSrvMaintain {
    pub reboot_time: i64,
    pub shutdown_time: i64,
}

#[derive(Clone, Debug)]
pub struct DspKickRole {
    pub ty: i32,
}

#[derive(Clone, Debug)]
pub struct DspEnterZone {}

#[derive(Clone, Debug)]
pub struct DspMove {
    pub role_id: i64,
    pub pos: Option<Vector>,
}

} // verus!
