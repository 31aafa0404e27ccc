//! The method tables of the host bridges: each operation a bridge exposes
//! is called through a small method number.

use vstd::prelude::*;

verus! {

/// The operations of the `node:async_hooks` bridge.
#[derive(Clone, Copy, Debug, PartialEq, Eq, Structural)]
pub enum AsyncHooksMethodKind {
    ExecutionAsyncId,
    TriggerAsyncId,
    ExecutionAsyncResource,
    AlsNew,
    AlsEnterWith,
    AlsGetStore,
    AlsDisable,
    AsyncResourceNew,
    AsyncResourceEnter,
    AsyncResourceExit,
    AsyncResourceEmitDestroy,
    AsyncResourceAsyncId,
    AsyncResourceTriggerAsyncId,
    SetImmediate,
    ClearImmediate,
    Providers,
    CreateHook,
    AlsCaptureFrame,
    AlsPushFrame,
    AlsPopFrame,
    HookEnable,
    HookDisable,
}

/// The method number of each AsyncHooksMethodKind operation.
pub open spec fn async_hooks_method_number(k: AsyncHooksMethodKind) -> u8 {
    match k {
        AsyncHooksMethodKind::ExecutionAsyncId => 0,
        AsyncHooksMethodKind::TriggerAsyncId => 1,
        AsyncHooksMethodKind::ExecutionAsyncResource => 2,
        AsyncHooksMethodKind::AlsNew => 3,
        AsyncHooksMethodKind::AlsEnterWith => 4,
        AsyncHooksMethodKind::AlsGetStore => 5,
        AsyncHooksMethodKind::AlsDisable => 6,
        AsyncHooksMethodKind::AsyncResourceNew => 7,
        AsyncHooksMethodKind::AsyncResourceEnter => 8,
        AsyncHooksMethodKind::AsyncResourceExit => 9,
        AsyncHooksMethodKind::AsyncResourceEmitDestroy => 10,
        AsyncHooksMethodKind::AsyncResourceAsyncId => 11,
        AsyncHooksMethodKind::AsyncResourceTriggerAsyncId => 12,
        AsyncHooksMethodKind::SetImmediate => 13,
        AsyncHooksMethodKind::ClearImmediate => 14,
        AsyncHooksMethodKind::Providers => 15,
        AsyncHooksMethodKind::CreateHook => 16,
        AsyncHooksMethodKind::AlsCaptureFrame => 17,
        AsyncHooksMethodKind::AlsPushFrame => 18,
        AsyncHooksMethodKind::AlsPopFrame => 19,
        AsyncHooksMethodKind::HookEnable => 20,
        AsyncHooksMethodKind::HookDisable => 21,
    }
}

impl AsyncHooksMethodKind {
    /// The operation's method number.
    pub fn method(self) -> (r: u8)
        ensures
            r == async_hooks_method_number(self),
    {
        match self {
            AsyncHooksMethodKind::ExecutionAsyncId => 0,
            AsyncHooksMethodKind::TriggerAsyncId => 1,
            AsyncHooksMethodKind::ExecutionAsyncResource => 2,
            AsyncHooksMethodKind::AlsNew => 3,
            AsyncHooksMethodKind::AlsEnterWith => 4,
            AsyncHooksMethodKind::AlsGetStore => 5,
            AsyncHooksMethodKind::AlsDisable => 6,
            AsyncHooksMethodKind::AsyncResourceNew => 7,
            AsyncHooksMethodKind::AsyncResourceEnter => 8,
            AsyncHooksMethodKind::AsyncResourceExit => 9,
            AsyncHooksMethodKind::AsyncResourceEmitDestroy => 10,
            AsyncHooksMethodKind::AsyncResourceAsyncId => 11,
            AsyncHooksMethodKind::AsyncResourceTriggerAsyncId => 12,
            AsyncHooksMethodKind::SetImmediate => 13,
            AsyncHooksMethodKind::ClearImmediate => 14,
            AsyncHooksMethodKind::Providers => 15,
            AsyncHooksMethodKind::CreateHook => 16,
            AsyncHooksMethodKind::AlsCaptureFrame => 17,
            AsyncHooksMethodKind::AlsPushFrame => 18,
            AsyncHooksMethodKind::AlsPopFrame => 19,
            AsyncHooksMethodKind::HookEnable => 20,
            AsyncHooksMethodKind::HookDisable => 21,
        }
    }

    /// The operation with method number `m`, if there is one.
    pub fn from_method(m: u8) -> (r: Option<Self>)
        ensures
            match r {
                Some(k) => async_hooks_method_number(k) == m,
                None => m >= 22,
            },
    {
        match m {
            0 => Some(AsyncHooksMethodKind::ExecutionAsyncId),
            1 => Some(AsyncHooksMethodKind::TriggerAsyncId),
            2 => Some(AsyncHooksMethodKind::ExecutionAsyncResource),
            3 => Some(AsyncHooksMethodKind::AlsNew),
            4 => Some(AsyncHooksMethodKind::AlsEnterWith),
            5 => Some(AsyncHooksMethodKind::AlsGetStore),
            6 => Some(AsyncHooksMethodKind::AlsDisable),
            7 => Some(AsyncHooksMethodKind::AsyncResourceNew),
            8 => Some(AsyncHooksMethodKind::AsyncResourceEnter),
            9 => Some(AsyncHooksMethodKind::AsyncResourceExit),
            10 => Some(AsyncHooksMethodKind::AsyncResourceEmitDestroy),
            11 => Some(AsyncHooksMethodKind::AsyncResourceAsyncId),
            12 => Some(AsyncHooksMethodKind::AsyncResourceTriggerAsyncId),
            13 => Some(AsyncHooksMethodKind::SetImmediate),
            14 => Some(AsyncHooksMethodKind::ClearImmediate),
            15 => Some(AsyncHooksMethodKind::Providers),
            16 => Some(AsyncHooksMethodKind::CreateHook),
            17 => Some(AsyncHooksMethodKind::AlsCaptureFrame),
            18 => Some(AsyncHooksMethodKind::AlsPushFrame),
            19 => Some(AsyncHooksMethodKind::AlsPopFrame),
            20 => Some(AsyncHooksMethodKind::HookEnable),
            21 => Some(AsyncHooksMethodKind::HookDisable),
            _ => None,
        }
    }
}
/// The operations of the `node:dgram` bridge.
#[derive(Clone, Copy, Debug, PartialEq, Eq, Structural)]
pub enum DgramMethodKind {
    Bind,
    Send,
    Recv,
    Close,
    Address,
    Port,
}

/// The method number of each DgramMethodKind operation.
pub open spec fn dgram_method_number(k: DgramMethodKind) -> u8 {
    match k {
        DgramMethodKind::Bind => 0,
        DgramMethodKind::Send => 1,
        DgramMethodKind::Recv => 2,
        DgramMethodKind::Close => 3,
        DgramMethodKind::Address => 4,
        DgramMethodKind::Port => 5,
    }
}

impl DgramMethodKind {
    /// The operation's method number.
    pub fn method(self) -> (r: u8)
        ensures
            r == dgram_method_number(self),
    {
        match self {
            DgramMethodKind::Bind => 0,
            DgramMethodKind::Send => 1,
            DgramMethodKind::Recv => 2,
            DgramMethodKind::Close => 3,
            DgramMethodKind::Address => 4,
            DgramMethodKind::Port => 5,
        }
    }

    /// The operation with method number `m`, if there is one.
    pub fn from_method(m: u8) -> (r: Option<Self>)
        ensures
            match r {
                Some(k) => dgram_method_number(k) == m,
                None => m >= 6,
            },
    {
        match m {
            0 => Some(DgramMethodKind::Bind),
            1 => Some(DgramMethodKind::Send),
            2 => Some(DgramMethodKind::Recv),
            3 => Some(DgramMethodKind::Close),
            4 => Some(DgramMethodKind::Address),
            5 => Some(DgramMethodKind::Port),
            _ => None,
        }
    }
}
/// The operations of the `node:child_process` bridge.
#[derive(Clone, Copy, Debug, PartialEq, Eq, Structural)]
pub enum ChildProcessMethodKind {
    SpawnSync,
    ExecSync,
}

/// The method number of each ChildProcessMethodKind operation.
pub open spec fn child_process_method_number(k: ChildProcessMethodKind) -> u8 {
    match k {
        ChildProcessMethodKind::SpawnSync => 0,
        ChildProcessMethodKind::ExecSync => 1,
    }
}

impl ChildProcessMethodKind {
    /// The operation's method number.
    pub fn method(self) -> (r: u8)
        ensures
            r == child_process_method_number(self),
    {
        match self {
            ChildProcessMethodKind::SpawnSync => 0,
            ChildProcessMethodKind::ExecSync => 1,
        }
    }

    /// The operation with method number `m`, if there is one.
    pub fn from_method(m: u8) -> (r: Option<Self>)
        ensures
            match r {
                Some(k) => child_process_method_number(k) == m,
                None => m >= 2,
            },
    {
        match m {
            0 => Some(ChildProcessMethodKind::SpawnSync),
            1 => Some(ChildProcessMethodKind::ExecSync),
            _ => None,
        }
    }
}
/// Each table's method numbers name its operations one to one: decoding
/// an operation's number gives the operation back, and every number below
/// the table's size decodes to an operation with that number.
pub proof fn law_method_numbers_round_trip(a: AsyncHooksMethodKind, d: DgramMethodKind, c: ChildProcessMethodKind)
    ensures
        forall|x: AsyncHooksMethodKind| async_hooks_method_number(x) == async_hooks_method_number(a) ==> x == a,
        forall|x: DgramMethodKind| dgram_method_number(x) == dgram_method_number(d) ==> x == d,
        forall|x: ChildProcessMethodKind| child_process_method_number(x) == child_process_method_number(c) ==> x == c,
        async_hooks_method_number(a) < 22,
        dgram_method_number(d) < 6,
        child_process_method_number(c) < 2,
{
}

} // verus!
