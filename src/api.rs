use vstd::prelude::*;
use vstd::utf8::encode_utf8;

use crate::context::ServerContext;
use crate::model::{Device, Stats};
use crate::registry::{holds_key, name_key, refresh_spec, shows, DeviceRegistry};
use crate::stats::stats_match;

verus! {

/// Why a request was refused.
#[derive(Clone, Copy, Debug, PartialEq, Eq, Structural)]
pub enum ApiError {
    /// The `Auth` header does not hold the configured token.
    Unauthenticated,
    /// A required header is missing.
    BadRequest,
    /// No device of that name has ever beaten.
    NotFound,
}

/// The outcome of the authentication gate for a request whose `Auth` header
/// holds `auth` (none when the header is missing).
pub open spec fn auth_spec(ctx: ServerContext, auth: Option<Seq<u8>>) -> Result<(), ApiError> {
    match auth {
        None => Err(ApiError::BadRequest),
        Some(a) => if a == encode_utf8(ctx.auth_token@) {
            Ok(())
        } else {
            Err(ApiError::Unauthenticated)
        },
    }
}

pub open spec fn opt_view(auth: Option<&[u8]>) -> Option<Seq<u8>> {
    match auth {
        None => None,
        Some(a) => Some(a@),
    }
}

/// The authentication gate: a missing `Auth` header is a bad request, a wrong
/// one is unauthenticated.
pub fn authorize(ctx: &ServerContext, auth: Option<&[u8]>) -> (r: Result<(), ApiError>)
    ensures
        r == auth_spec(*ctx, opt_view(auth)),
{
    match auth {
        None => Err(ApiError::BadRequest),
        Some(a) => match ctx.is_authed(a) {
            Ok(()) => Ok(()),
            Err(_) => Err(ApiError::Unauthenticated),
        },
    }
}

/// `POST /api/beat`: records a beat of the device named in the `Device`
/// header at `now`, and answers with the device's beat count, which grows
/// with every accepted beat. A beat that is not later than the device's
/// last one is acknowledged without effect.
pub fn post_beat(
    ctx: &ServerContext,
    registry: &mut DeviceRegistry,
    auth: Option<&[u8]>,
    device: Option<String>,
    now: i64,
) -> (r: Result<u64, ApiError>)
    requires
        old(registry).wf(),
    ensures
        final(registry).wf(),
        final(registry).interval() == old(registry).interval(),
        auth_spec(*ctx, opt_view(auth)) matches Err(e) ==> r == Err::<u64, ApiError>(e)
            && final(registry)@ == old(registry)@,
        auth_spec(*ctx, opt_view(auth)) is Ok && device is None ==> r == Err::<u64, ApiError>(
            ApiError::BadRequest,
        ) && final(registry)@ == old(registry)@,
        auth_spec(*ctx, opt_view(auth)) is Ok && device is Some ==> {
            let name = device->Some_0;
            &&& r is Ok
            &&& forall|i: int|
                0 <= i < old(registry)@.len() && (#[trigger] old(registry)@[i]).key() == name_key(
                    name@,
                ) ==> if now <= old(registry)@[i].last_beat {
                    r == Ok::<u64, ApiError>(old(registry)@[i].total_beats)
                        && final(registry)@ == old(registry)@
                } else {
                    final(registry)@[i] == crate::registry::beat_spec(
                        old(registry)@[i],
                        now,
                        old(registry).interval(),
                    ) && r == Ok::<u64, ApiError>(final(registry)@[i].total_beats)
                        && final(registry)@ == old(registry)@.update(i, final(registry)@[i])
                }
            &&& !holds_key(old(registry)@, name_key(name@)) ==> r == Ok::<u64, ApiError>(1u64)
                && exists|j: int|
                0 <= j <= old(registry)@.len() && final(registry)@ == old(registry)@.insert(
                    j,
                    crate::registry::first_record_spec(name, now),
                )
        },
{
    match authorize(ctx, auth) {
        Err(e) => Err(e),
        Ok(()) => match device {
            None => Err(ApiError::BadRequest),
            Some(name) => {
                let (_, d) = registry.record_beat(name, now);
                Ok(d.total_beats)
            },
        },
    }
}

/// `POST /api/update/stats`: re-samples every device at `now`, then answers
/// with the fleet totals.
pub fn update_stats(
    ctx: &ServerContext,
    registry: &mut DeviceRegistry,
    auth: Option<&[u8]>,
    now: i64,
) -> (r: Result<Stats, ApiError>)
    requires
        old(registry).wf(),
    ensures
        final(registry).wf(),
        final(registry).interval() == old(registry).interval(),
        auth_spec(*ctx, opt_view(auth)) matches Err(e) ==> r matches Err(e2) && e2 == e
            && final(registry)@ == old(registry)@,
        auth_spec(*ctx, opt_view(auth)) is Ok ==> {
            &&& final(registry)@.len() == old(registry)@.len()
            &&& forall|i: int|
                0 <= i < old(registry)@.len() ==> #[trigger] final(registry)@[i] == refresh_spec(
                    old(registry)@[i],
                    old(registry).interval(),
                    now,
                )
            &&& r matches Ok(s) && stats_match(s, final(registry)@, now)
        },
{
    match authorize(ctx, auth) {
        Err(e) => Err(e),
        Ok(()) => {
            registry.sweep(now);
            Ok(registry.stats(now))
        },
    }
}

/// `POST /api/update/devices`: re-samples the device named in the `Device`
/// header at `now` and answers with it.
pub fn update_device(
    ctx: &ServerContext,
    registry: &mut DeviceRegistry,
    auth: Option<&[u8]>,
    device: Option<String>,
    now: i64,
) -> (r: Result<Device, ApiError>)
    requires
        old(registry).wf(),
    ensures
        final(registry).wf(),
        final(registry).interval() == old(registry).interval(),
        auth_spec(*ctx, opt_view(auth)) matches Err(e) ==> r matches Err(e2) && e2 == e
            && final(registry)@ == old(registry)@,
        auth_spec(*ctx, opt_view(auth)) is Ok && device is None ==> (r matches Err(e)
            && e == ApiError::BadRequest && final(registry)@ == old(registry)@),
        auth_spec(*ctx, opt_view(auth)) is Ok && device is Some ==> {
            let name = device->Some_0;
            &&& !holds_key(old(registry)@, name_key(name@)) ==> (r matches Err(e)
                && e == ApiError::NotFound && final(registry)@ == old(registry)@)
            &&& forall|i: int|
                0 <= i < old(registry)@.len() && (#[trigger] old(registry)@[i]).key() == name_key(
                    name@,
                ) ==> {
                    let rec = refresh_spec(old(registry)@[i], old(registry).interval(), now);
                    &&& final(registry)@ == old(registry)@.update(i, rec)
                    &&& r matches Ok(d) && shows(d, rec)
                }
        },
{
    match authorize(ctx, auth) {
        Err(e) => Err(e),
        Ok(()) => match device {
            None => Err(ApiError::BadRequest),
            Some(name) => {
                let ghost before = registry@;
                if registry.refresh_overdue(&name, now) {
                    assert forall|i: int|
                        0 <= i < before.len() && (#[trigger] before[i]).key() == name_key(name@)
                        implies registry@[i].key() == name_key(name@) by {}
                    match registry.get_device(&name) {
                        Some(d) => Ok(d.to_device()),
                        None => Err(ApiError::NotFound),
                    }
                } else {
                    Err(ApiError::NotFound)
                }
            },
        },
    }
}

/// `GET /api/devices`: every device as a client sees it, in order of name.
/// A refused request reads nothing.
pub fn get_devices(
    ctx: &ServerContext,
    registry: &DeviceRegistry,
    auth: Option<&[u8]>,
) -> (r: Result<Vec<Device>, ApiError>)
    requires
        registry.wf(),
    ensures
        auth_spec(*ctx, opt_view(auth)) matches Err(e) ==> r matches Err(e2) && e2 == e,
        auth_spec(*ctx, opt_view(auth)) is Ok ==> (r matches Ok(v) && v@.len() == registry@.len()
            && forall|i: int| 0 <= i < v@.len() ==> shows(#[trigger] v@[i], registry@[i])),
{
    match authorize(ctx, auth) {
        Err(e) => Err(e),
        Ok(()) => {
            let records = registry.list_devices();
            let mut out: Vec<Device> = Vec::new();
            let mut i: usize = 0;
            while i < records.len()
                invariant
                    records@ == registry@,
                    i <= records@.len(),
                    out@.len() == i,
                    forall|j: int| 0 <= j < i ==> shows(#[trigger] out@[j], records@[j]),
                decreases records@.len() - i,
            {
                out.push(records[i].to_device());
                i = i + 1;
            }
            Ok(out)
        },
    }
}

} // verus!
