//! The key directory: publishing the keys of this device, and claiming key
//! packages of the devices of others.

use vstd::prelude::*;
use vstd::string::*;

use crate::api::{
    Api, ApiError, ApiErrorView, ApiView, HashedPackage, HttpRequest, RequestView,
};
use crate::e2ee::KEY_PACKAGE_COUNT;
use crate::error::{CoreError, CoreErrorView};
use crate::json::{Json, JsonView};
use crate::log::LogLevel;
use crate::reply::{devices_of, key_count_of, package_of};
use crate::text::{decimal_u64, join2, join3};

verus! {

/// A key package that was claimed from a device.
#[derive(Debug, Clone)]
pub struct ClaimedKeyPackage {
    pub device_id: String,
    pub key_package_b64: String,
}

/// What a [`ClaimedKeyPackage`] holds.
pub struct ClaimedView {
    pub device_id: Seq<char>,
    pub key_package_b64: Seq<char>,
}

impl View for ClaimedKeyPackage {
    type V = ClaimedView;

    open spec fn view(&self) -> ClaimedView {
        ClaimedView { device_id: self.device_id@, key_package_b64: self.key_package_b64@ }
    }
}

/// The values of a list of claimed packages.
pub open spec fn claimed_views(v: Seq<ClaimedKeyPackage>) -> Seq<ClaimedView> {
    Seq::new(v.len(), |i: int| v[i]@)
}

/// Claiming a key package from each device of a user.
pub struct ClaimPass {
    user_id: String,
    rest: Vec<String>,
    claimed: Vec<ClaimedKeyPackage>,
}

/// What a [`ClaimPass`] holds: the user, the devices still to come, and what was
/// claimed.
#[verifier::ext_equal]
pub struct ClaimView {
    pub user_id: Seq<char>,
    pub rest: Seq<Seq<char>>,
    pub claimed: Seq<ClaimedView>,
}

impl View for ClaimPass {
    type V = ClaimView;

    closed spec fn view(&self) -> ClaimView {
        ClaimView {
            user_id: self.user_id@,
            rest: crate::store::summary::string_views(self.rest@),
            claimed: claimed_views(self.claimed@),
        }
    }
}

/// What has happened in the course of claiming.
pub enum ClaimEvent {
    /// The server was asked for the user's devices.
    Queried(Result<Json, ApiError>),
    /// The server was asked for a key package of a device.
    Claimed(String, Result<Json, ApiError>),
}

/// What is to be done next in the course of claiming.
pub enum ClaimAction {
    /// Ask the server for a key package of a device.
    Claim(String, HttpRequest),
    /// All was claimed.
    Done(Vec<ClaimedKeyPackage>),
}

/// What a [`ClaimEvent`] says.
pub enum ClaimEventView {
    Queried(Result<JsonView, ApiErrorView>),
    Claimed(Seq<char>, Result<JsonView, ApiErrorView>),
}

/// What a [`ClaimAction`] says.
pub enum ClaimActionView {
    Claim(Seq<char>, RequestView),
    Done(Seq<ClaimedView>),
}

impl View for ClaimEvent {
    type V = ClaimEventView;

    open spec fn view(&self) -> ClaimEventView {
        match self {
            ClaimEvent::Queried(r) => ClaimEventView::Queried(crate::api::api_outcome(*r)),
            ClaimEvent::Claimed(device, r) => ClaimEventView::Claimed(
                device@,
                crate::api::api_outcome(*r),
            ),
        }
    }
}

impl View for ClaimAction {
    type V = ClaimActionView;

    open spec fn view(&self) -> ClaimActionView {
        match self {
            ClaimAction::Claim(device, request) => ClaimActionView::Claim(device@, request@),
            ClaimAction::Done(claimed) => ClaimActionView::Done(claimed_views(claimed@)),
        }
    }
}

/// The request for a key package of a device.
pub open spec fn claim_request(api: ApiView, user: Seq<char>, device: Seq<char>) -> RequestView {
    api.post(
        "/_pigeon/client/v1/keys/claim"@,
        JsonView::Object(
            seq![
                (
                    "one_time_keys"@,
                    JsonView::Object(seq![(user, JsonView::Array(seq![JsonView::Str(device)]))]),
                ),
            ],
        ),
    )
}

/// Claiming goes on with the next device.
pub open spec fn next_claim(v: ClaimView, api: ApiView) -> (ClaimView, ClaimActionView) {
    if v.rest.len() == 0 {
        (ClaimView { claimed: seq![], ..v }, ClaimActionView::Done(v.claimed))
    } else {
        (
            ClaimView { rest: v.rest.drop_first(), ..v },
            ClaimActionView::Claim(v.rest[0], claim_request(api, v.user_id, v.rest[0])),
        )
    }
}

/// One step of claiming. A device that has no package left is passed over; that a
/// user has published nothing is no error.
pub open spec fn claim_step(v: ClaimView, api: ApiView, event: ClaimEventView) -> (
    ClaimView,
    Result<ClaimActionView, CoreErrorView>,
) {
    match event {
        ClaimEventView::Queried(Err(e)) => (v, Err(crate::error::of_api(e))),
        ClaimEventView::Queried(Ok(body)) => {
            let (after, action) = next_claim(
                ClaimView { rest: crate::reply::device_ids(body, v.user_id), ..v },
                api,
            );
            (after, Ok(action))
        },
        ClaimEventView::Claimed(_, Err(e)) => (v, Err(crate::error::of_api(e))),
        ClaimEventView::Claimed(device, Ok(body)) => {
            let claimed = match crate::reply::claimed_package(body, v.user_id, device) {
                Some(package) => v.claimed.push(
                    ClaimedView { device_id: device, key_package_b64: package },
                ),
                None => v.claimed,
            };
            let (after, action) = next_claim(ClaimView { claimed, ..v }, api);
            (after, Ok(action))
        },
    }
}

/// Where a user has published nothing, nothing is claimed.
pub proof fn nothing_published_nothing_claimed(v: ClaimView, api: ApiView, body: JsonView)
    requires
        v.claimed.len() == 0,
        crate::reply::device_ids(body, v.user_id).len() == 0,
    ensures
        claim_step(v, api, ClaimEventView::Queried(Ok(body))).1 == Ok::<
            ClaimActionView,
            CoreErrorView,
        >(ClaimActionView::Done(v.claimed)),
{
}

/// Claiming ends: every device is asked once.
pub proof fn claiming_ends(v: ClaimView, api: ApiView, device: Seq<char>, body: JsonView)
    ensures
        ({
            let (after, action) = claim_step(v, api, ClaimEventView::Claimed(device, Ok(body)));
            action->Ok_0 is Done || after.rest.len() < v.rest.len()
        }),
{
}

/// What is claimed from a list of devices, asked one by one, where `server` says
/// what the server answers to the request of a given number. The first failure ends
/// the claiming.
pub open spec fn claimed_from(
    user: Seq<char>,
    devices: Seq<Seq<char>>,
    api: ApiView,
    server: spec_fn(nat, RequestView) -> Result<JsonView, ApiErrorView>,
    at: nat,
) -> Result<Seq<ClaimedView>, CoreErrorView>
    decreases devices.len(),
{
    if devices.len() == 0 {
        Ok(seq![])
    } else {
        let device = devices[0];
        match server(at, claim_request(api, user, device)) {
            Err(e) => Err(crate::error::of_api(e)),
            Ok(body) => match claimed_from(user, devices.drop_first(), api, server, at + 1) {
                Err(e) => Err(e),
                Ok(rest) => match crate::reply::claimed_package(body, user, device) {
                    Some(package) => Ok(
                        seq![ClaimedView { device_id: device, key_package_b64: package }] + rest,
                    ),
                    None => Ok(rest),
                },
            },
        }
    }
}

/// Whether a package is what the server gave of the device at a place of a list.
pub open spec fn is_given(
    user: Seq<char>,
    devices: Seq<Seq<char>>,
    api: ApiView,
    server: spec_fn(nat, RequestView) -> Result<JsonView, ApiErrorView>,
    at: nat,
    i: int,
    package: ClaimedView,
) -> bool {
    &&& 0 <= i < devices.len()
    &&& package.device_id == devices[i]
    &&& match server((at + i) as nat, claim_request(api, user, devices[i])) {
        Ok(body) => crate::reply::claimed_package(body, user, devices[i]) == Some(
            package.key_package_b64,
        ),
        Err(_) => false,
    }
}

/// Whether a package is what the server gave of one of the devices of a list.
pub open spec fn is_of_a_device(
    user: Seq<char>,
    devices: Seq<Seq<char>>,
    api: ApiView,
    server: spec_fn(nat, RequestView) -> Result<JsonView, ApiErrorView>,
    at: nat,
    package: ClaimedView,
) -> bool {
    exists|i: int| is_given(user, devices, api, server, at, i, package)
}

/// Each claimed package is that of its own device, every device that had one left
/// has its package claimed, and no device has two claimed.
pub proof fn packages_are_those_of_the_devices(
    user: Seq<char>,
    devices: Seq<Seq<char>>,
    api: ApiView,
    server: spec_fn(nat, RequestView) -> Result<JsonView, ApiErrorView>,
    at: nat,
)
    ensures
        match claimed_from(user, devices, api, server, at) {
            Err(_) => true,
            Ok(packages) => {
                &&& forall|k: int|
                    0 <= k < packages.len() ==> is_of_a_device(
                        user,
                        devices,
                        api,
                        server,
                        at,
                        #[trigger] packages[k],
                    )
                &&& forall|i: int, package: ClaimedView|
                    #[trigger] is_given(user, devices, api, server, at, i, package)
                        ==> packages.contains(package)
                &&& devices.no_duplicates() ==> forall|j: int, k: int|
                    0 <= j < k < packages.len() ==> (#[trigger] packages[j]).device_id != (
                    #[trigger] packages[k]).device_id
            },
        },
    decreases devices.len(),
{
    if devices.len() > 0 && claimed_from(user, devices, api, server, at) is Ok {
        let rest = devices.drop_first();
        let later: nat = at + 1;
        let packages = claimed_from(user, devices, api, server, at)->Ok_0;
        let others = claimed_from(user, rest, api, server, at + 1)->Ok_0;
        packages_are_those_of_the_devices(user, rest, api, server, at + 1);
        let body = server(at, claim_request(api, user, devices[0]))->Ok_0;
        let own = crate::reply::claimed_package(body, user, devices[0]);
        let shift: int = if own is Some {
            1
        } else {
            0
        };
        assert forall|k: int| 0 <= k < packages.len() implies is_of_a_device(
            user,
            devices,
            api,
            server,
            at,
            #[trigger] packages[k],
        ) by {
            if k < shift {
                assert(is_given(user, devices, api, server, at, 0, packages[k]));
            } else {
                assert(packages[k] == others[k - shift]);
                let package = others[k - shift];
                let i = choose|i: int| is_given(user, rest, api, server, later, i, package);
                assert(devices[i + 1] == rest[i]);
                assert(is_given(user, devices, api, server, at, i + 1, packages[k]));
            }
        }
        assert forall|i: int, package: ClaimedView|
            #[trigger] is_given(
                user,
                devices,
                api,
                server,
                at,
                i,
                package,
            ) implies packages.contains(package) by {
            if i == 0 {
                assert(packages[0] == package);
            } else {
                assert(devices[i] == rest[i - 1]);
                assert(is_given(user, rest, api, server, at + 1, i - 1, package));
                let k = choose|k: int| 0 <= k < others.len() && others[k] == package;
                assert(packages[k + shift] == package);
            }
        }
        if devices.no_duplicates() {
            assert(rest.no_duplicates()) by {
                assert forall|i: int, j: int|
                    0 <= i < rest.len() && 0 <= j < rest.len() && i != j implies rest[i]
                    != rest[j] by {
                    assert(devices[i + 1] != devices[j + 1]);
                }
            }
            assert forall|j: int, k: int| 0 <= j < k < packages.len() implies (
            #[trigger] packages[j]).device_id != (#[trigger] packages[k]).device_id by {
                assert(packages[k] == others[k - shift]);
                if j < shift {
                    let package = others[k - shift];
                    let i = choose|i: int| is_given(user, rest, api, server, later, i, package);
                    assert(devices[i + 1] == rest[i]);
                    assert(devices[0] != devices[i + 1]);
                } else {
                    assert(packages[j] == others[j - shift]);
                }
            }
        }
    }
}

/// The request for the devices of a user.
pub open spec fn devices_request(api: ApiView, user: Seq<char>) -> RequestView {
    api.post(
        "/_pigeon/client/v1/keys/query"@,
        JsonView::Object(
            seq![
                ("device_keys"@, JsonView::Object(seq![(user, JsonView::Array(seq![]))])),
            ],
        ),
    )
}

/// Claiming a key package from every device of a user, and the request for the
/// devices, with which it begins.
pub fn claim_all_devices(api: &Api, user_id: &str) -> (r: (ClaimPass, HttpRequest))
    ensures
        r.0@ == (ClaimView { user_id: user_id@, rest: seq![], claimed: seq![] }),
        r.1@ == devices_request(api@, user_id@),
{
    let pass = ClaimPass { user_id: user_id.to_owned(), rest: Vec::new(), claimed: Vec::new() };
    assert(pass@ =~= (ClaimView { user_id: user_id@, rest: seq![], claimed: seq![] }));
    (pass, api.query_keys(user_id))
}

impl ClaimPass {
    fn advance(&mut self, api: &Api) -> (r: ClaimAction)
        ensures
            (final(self)@, r@) == next_claim(old(self)@, api@),
    {
        if self.rest.len() == 0 {
            let mut claimed: Vec<ClaimedKeyPackage> = Vec::new();
            std::mem::swap(&mut claimed, &mut self.claimed);
            assert(self@.claimed =~= seq![]);
            return ClaimAction::Done(claimed);
        }
        let ghost before = self@;
        let device = self.rest.remove(0);
        assert(before.rest[0] == device@);
        assert(self@.rest =~= before.rest.drop_first());
        let request = api.claim_keys(self.user_id.as_str(), device.as_str());
        ClaimAction::Claim(device, request)
    }

    /// One step of claiming.
    pub fn next(&mut self, api: &Api, event: ClaimEvent) -> (r: Result<ClaimAction, CoreError>)
        ensures
            (final(self)@, crate::error::core_outcome(r)) == claim_step(old(self)@, api@, event@),
    {
        match event {
            ClaimEvent::Queried(reply) => match devices_of(reply, self.user_id.as_str()) {
                Ok(devices) => {
                    self.rest = devices;
                    Ok(self.advance(api))
                },
                Err(e) => Err(CoreError::of_api(e)),
            },
            ClaimEvent::Claimed(device, reply) => match package_of(
                reply,
                self.user_id.as_str(),
                device.as_str(),
            ) {
                Ok(found) => {
                    let ghost before = self@;
                    match found {
                        Some(package) => {
                            let one = ClaimedKeyPackage {
                                device_id: device,
                                key_package_b64: package,
                            };
                            self.claimed.push(one);
                            assert(self@.claimed =~= before.claimed.push(one@));
                        },
                        None => {},
                    }
                    Ok(self.advance(api))
                },
                Err(e) => Err(CoreError::of_api(e)),
            },
        }
    }
}

/// What has happened in the course of publishing this device's keys.
pub enum PublishEvent {
    /// Publishing begins.
    Begin { has_engine: bool },
    /// The engine was asked for its public key and new key packages.
    Made(Result<(String, Vec<HashedPackage>), CoreError>),
    /// The engine was asked for the last-resort package. The public key and the
    /// other packages were made before.
    LastResort {
        public_key: String,
        packages: Vec<HashedPackage>,
        made: Result<HashedPackage, CoreError>,
    },
    /// The keys were uploaded.
    Uploaded(Result<Json, ApiError>),
}

/// What is to be done next in the course of publishing this device's keys.
pub enum PublishAction {
    /// Have the engine make key packages.
    Make { count: usize },
    /// Have the engine make the last-resort package, which may be claimed again and
    /// again: by it the device can be added to groups when all others are claimed.
    MakeLastResort { public_key: String, packages: Vec<HashedPackage> },
    /// Log the warning, where there is one, and upload the keys.
    Upload { warning: Option<String>, request: HttpRequest },
    /// Publishing is over. Log what came of it.
    Report { level: LogLevel, message: String },
    /// There is nothing to publish.
    Nothing,
}

/// What a [`PublishEvent`] says.
pub enum PublishEventView {
    Begin(bool),
    Made(Result<(Seq<char>, Seq<HashedPackage>), CoreErrorView>),
    LastResort(Seq<char>, Seq<HashedPackage>, Result<HashedPackage, CoreErrorView>),
    Uploaded(Result<JsonView, ApiErrorView>),
}

/// What a [`PublishAction`] says.
pub enum PublishActionView {
    Make(usize),
    MakeLastResort(Seq<char>, Seq<HashedPackage>),
    Upload(Option<Seq<char>>, RequestView),
    Report(LogLevel, Seq<char>),
    Nothing,
}

impl View for PublishEvent {
    type V = PublishEventView;

    open spec fn view(&self) -> PublishEventView {
        match self {
            PublishEvent::Begin { has_engine } => PublishEventView::Begin(*has_engine),
            PublishEvent::Made(r) => PublishEventView::Made(
                match r {
                    Ok(pair) => Ok((pair.0@, pair.1@)),
                    Err(e) => Err(e@),
                },
            ),
            PublishEvent::LastResort { public_key, packages, made } => PublishEventView::LastResort(
                public_key@,
                packages@,
                match made {
                    Ok(package) => Ok(*package),
                    Err(e) => Err(e@),
                },
            ),
            PublishEvent::Uploaded(r) => PublishEventView::Uploaded(crate::api::api_outcome(*r)),
        }
    }
}

impl View for PublishAction {
    type V = PublishActionView;

    open spec fn view(&self) -> PublishActionView {
        match self {
            PublishAction::Make { count } => PublishActionView::Make(*count),
            PublishAction::MakeLastResort { public_key, packages } =>
                PublishActionView::MakeLastResort(public_key@, packages@),
            PublishAction::Upload { warning, request } => PublishActionView::Upload(
                crate::json::opt_string_view(*warning),
                request@,
            ),
            PublishAction::Report { level, message } => PublishActionView::Report(*level, message@),
            PublishAction::Nothing => PublishActionView::Nothing,
        }
    }
}

/// The request that uploads a device's keys.
pub open spec fn upload_request(
    api: ApiView,
    device_id: Seq<char>,
    public_key: Seq<char>,
    packages: Seq<HashedPackage>,
    last_resort: Option<HashedPackage>,
) -> RequestView {
    api.post(
        "/_pigeon/client/v1/keys/upload"@,
        crate::api::upload_body(device_id, public_key, packages, last_resort),
    )
}

/// One step of publishing this device's keys. A failure is reported and ends it;
/// it is no error, since what is not encrypted works without keys. That there is no
/// last-resort package ends nothing: the others go out without it.
pub open spec fn publish_step(
    api: ApiView,
    device_id: Seq<char>,
    event: PublishEventView,
) -> PublishActionView {
    match event {
        PublishEventView::Begin(has_engine) => if has_engine {
            PublishActionView::Make(KEY_PACKAGE_COUNT)
        } else {
            PublishActionView::Nothing
        },
        PublishEventView::Made(Err(e)) => PublishActionView::Report(
            LogLevel::Warn,
            "could not generate KeyPackages: "@ + e.words(),
        ),
        PublishEventView::Made(Ok((public_key, packages))) => PublishActionView::MakeLastResort(
            public_key,
            packages,
        ),
        PublishEventView::LastResort(public_key, packages, Ok(package)) =>
            PublishActionView::Upload(
            None,
            upload_request(api, device_id, public_key, packages, Some(package)),
        ),
        PublishEventView::LastResort(public_key, packages, Err(e)) => PublishActionView::Upload(
            Some("could not generate the last-resort KeyPackage: "@ + e.words()),
            upload_request(api, device_id, public_key, packages, None),
        ),
        PublishEventView::Uploaded(Ok(body)) => PublishActionView::Report(
            LogLevel::Info,
            "published device keys ("@ + crate::text::decimal(
                crate::reply::package_count(body) as nat,
            ) + " KeyPackages available)"@,
        ),
        PublishEventView::Uploaded(Err(e)) => PublishActionView::Report(
            LogLevel::Warn,
            "device key upload failed (E2EE limited until next login): "@ + e.words(),
        ),
    }
}

/// The last-resort package is best effort: once the others are made, they are
/// uploaded under the device's key whatever becomes of it, and it goes with them
/// where it could be made.
pub proof fn last_resort_is_best_effort(
    api: ApiView,
    device_id: Seq<char>,
    public_key: Seq<char>,
    packages: Seq<HashedPackage>,
    made: Result<HashedPackage, CoreErrorView>,
)
    ensures
        publish_step(api, device_id, PublishEventView::Made(Ok((public_key, packages))))
            == PublishActionView::MakeLastResort(public_key, packages),
        publish_step(
            api,
            device_id,
            PublishEventView::LastResort(public_key, packages, made),
        ) matches PublishActionView::Upload(warning, request) && request == upload_request(
            api,
            device_id,
            public_key,
            packages,
            made.ok(),
        ) && (warning is Some <==> made is Err),
{
}

/// Keys are uploaded once, and only where they were made: no other event asks for
/// an upload, and what follows an upload ends the publishing. Without an engine, or
/// where the packages cannot be made, there is none.
pub proof fn keys_are_uploaded_once(api: ApiView, device_id: Seq<char>, event: PublishEventView)
    ensures
        publish_step(api, device_id, event) is Upload <==> event is LastResort,
        event is Uploaded ==> publish_step(api, device_id, event) is Report,
        event == PublishEventView::Begin(false) ==> publish_step(api, device_id, event) is Nothing,
        event matches PublishEventView::Made(Err(_)) ==> publish_step(api, device_id, event)
            is Report,
{
}

/// What is logged holds no keys: it is the same whatever the keys are.
pub proof fn log_holds_no_keys(
    api: ApiView,
    device_id: Seq<char>,
    a: (Seq<char>, Seq<HashedPackage>),
    b: (Seq<char>, Seq<HashedPackage>),
    x: HashedPackage,
    y: HashedPackage,
    why: CoreErrorView,
)
    ensures
        publish_step(api, device_id, PublishEventView::LastResort(a.0, a.1, Err(why)))->Upload_0
            == publish_step(
            api,
            device_id,
            PublishEventView::LastResort(b.0, b.1, Err(why)),
        )->Upload_0,
        publish_step(api, device_id, PublishEventView::LastResort(a.0, a.1, Ok(x)))->Upload_0
            == publish_step(
            api,
            device_id,
            PublishEventView::LastResort(b.0, b.1, Ok(y)),
        )->Upload_0,
        !(publish_step(api, device_id, PublishEventView::Made(Ok(a))) is Report),
{
}

/// One step of publishing this device's keys.
pub fn publish_device_keys(api: &Api, device_id: &str, event: PublishEvent) -> (r: PublishAction)
    ensures
        r@ == publish_step(api@, device_id@, event@),
{
    match event {
        PublishEvent::Begin { has_engine } => if has_engine {
            PublishAction::Make { count: KEY_PACKAGE_COUNT }
        } else {
            PublishAction::Nothing
        },
        PublishEvent::Made(made) => match made {
            Ok(pair) => {
                let (public_key, packages) = pair;
                PublishAction::MakeLastResort { public_key, packages }
            },
            Err(e) => {
                let why = e.describe();
                PublishAction::Report {
                    level: LogLevel::Warn,
                    message: join2("could not generate KeyPackages: ", why.as_str()),
                }
            },
        },
        PublishEvent::LastResort { public_key, packages, made } => match made {
            Ok(package) => PublishAction::Upload {
                warning: None,
                request: api.upload_keys(
                    device_id,
                    public_key.as_str(),
                    &packages,
                    Some(&package),
                ),
            },
            Err(e) => {
                let why = e.describe();
                PublishAction::Upload {
                    warning: Some(
                        join2("could not generate the last-resort KeyPackage: ", why.as_str()),
                    ),
                    request: api.upload_keys(device_id, public_key.as_str(), &packages, None),
                }
            },
        },
        PublishEvent::Uploaded(reply) => match key_count_of(reply) {
            Ok(count) => {
                let number = decimal_u64(count as u64);
                PublishAction::Report {
                    level: LogLevel::Info,
                    message: join3(
                        "published device keys (",
                        number.as_str(),
                        " KeyPackages available)",
                    ),
                }
            },
            Err(e) => {
                let why = e.describe();
                PublishAction::Report {
                    level: LogLevel::Warn,
                    message: join2(
                        "device key upload failed (E2EE limited until next login): ",
                        why.as_str(),
                    ),
                }
            },
        },
    }
}

/// Publishing the same package again gives it the id that it had, wherever it
/// stands in the pool; and packages whose hashes begin differently have different
/// ids.
pub proof fn package_ids_go_by_content(a: Seq<u8>, b: Seq<u8>, i: nat, j: nat)
    requires
        a.len() >= 8,
        b.len() >= 8,
    ensures
        crate::api::package_id(Some(a), i) == crate::api::package_id(Some(b), j) <==> a.take(8)
            == b.take(8),
{
    let x = if a.len() <= 8 { a } else { a.take(8) };
    let y = if b.len() <= 8 { b } else { b.take(8) };
    assert(x =~= a.take(8));
    assert(y =~= b.take(8));
    reveal_strlit("kp-");
    if crate::api::package_id(Some(a), i) == crate::api::package_id(Some(b), j) {
        let p = "kp-"@ + crate::text::hex(x);
        let q = "kp-"@ + crate::text::hex(y);
        assert(p.skip(3) =~= crate::text::hex(x));
        assert(q.skip(3) =~= crate::text::hex(y));
        crate::text::hex_is_injective(x, y);
    }
}

/// A package is claimed from one device of the user: the request names the user and that
/// device alone; and the devices are asked for of that user alone.
pub proof fn claims_name_their_device(api: ApiView, user: Seq<char>, device: Seq<char>)
    ensures
        ({
            let r = claim_request(api, user, device);
            &&& r.verb == crate::api::Verb::Post
            &&& r.url == api.base + "/_pigeon/client/v1/keys/claim"@
            &&& r.bearer == api.token
            &&& r.body is Json
            &&& r.body->Json_0.at("one_time_keys"@) == JsonView::Object(
                seq![(user, JsonView::Array(seq![JsonView::Str(device)]))],
            )
        }),
        ({
            let r = devices_request(api, user);
            &&& r.verb == crate::api::Verb::Post
            &&& r.url == api.base + "/_pigeon/client/v1/keys/query"@
            &&& r.bearer == api.token
            &&& r.body is Json
            &&& r.body->Json_0.at("device_keys"@) == JsonView::Object(
                seq![(user, JsonView::Array(seq![]))],
            )
        }),
{
    reveal_with_fuel(crate::json::find_member, 2);
}

/// Claiming asks each device once, in their order: the first of those that are left is
/// asked next, and when none is left what was claimed is handed out. What a device gave is
/// added behind the others under the device's id, and a device that gave none is passed
/// over; a failure ends the claiming.
pub proof fn claiming_asks_each_device(
    v: ClaimView,
    api: ApiView,
    device: Seq<char>,
    body: JsonView,
    e: ApiErrorView,
    package: Seq<char>,
)
    ensures
        claim_step(v, api, ClaimEventView::Queried(Err(e))).1 == Err::<
            ClaimActionView,
            CoreErrorView,
        >(crate::error::of_api(e)),
        claim_step(v, api, ClaimEventView::Claimed(device, Err(e))).1 == Err::<
            ClaimActionView,
            CoreErrorView,
        >(crate::error::of_api(e)),
        ({
            let given = body.at("one_time_keys"@).at(v.user_id).at(device).at("package"@);
            let (after, action) = claim_step(v, api, ClaimEventView::Claimed(device, Ok(body)));
            let claimed = if given == JsonView::Str(package) {
                v.claimed.push(ClaimedView { device_id: device, key_package_b64: package })
            } else {
                v.claimed
            };
            given == JsonView::Str(package) || !(given is Str) ==> {
                &&& v.rest.len() == 0 ==> action == Ok::<ClaimActionView, CoreErrorView>(
                    ClaimActionView::Done(claimed),
                )
                &&& v.rest.len() > 0 ==> after.rest == v.rest.skip(1) && after.claimed == claimed
                    && (action matches Ok(ClaimActionView::Claim(next, request)) && next
                    == v.rest[0] && request == claim_request(api, v.user_id, v.rest[0]))
                &&& after.user_id == v.user_id
            }
        }),
{
}

/// A device that has an engine publishes five packages, under its own id and with its
/// public key; and what is reported of an upload is the number of packages that the server
/// then has.
pub proof fn publishing_uploads_what_was_made(
    api: ApiView,
    device_id: Seq<char>,
    public_key: Seq<char>,
    packages: Seq<HashedPackage>,
    package: HashedPackage,
    why: CoreErrorView,
    body: JsonView,
    e: ApiErrorView,
)
    ensures
        publish_step(api, device_id, PublishEventView::Begin(true)) == PublishActionView::Make(5),
        publish_step(api, device_id, PublishEventView::Begin(false)) is Nothing,
        publish_step(
            api,
            device_id,
            PublishEventView::LastResort(public_key, packages, Ok(package)),
        ) matches PublishActionView::Upload(warning, request) && warning is None && request.url
            == api.base + "/_pigeon/client/v1/keys/upload"@ && request.bearer == api.token
            && request.verb == crate::api::Verb::Post && request.body
            == crate::api::BodyView::Json(
            crate::api::upload_body(device_id, public_key, packages, Some(package)),
        ),
        publish_step(
            api,
            device_id,
            PublishEventView::LastResort(public_key, packages, Err(why)),
        ) matches PublishActionView::Upload(warning, request) && warning == Some(
            "could not generate the last-resort KeyPackage: "@ + why.words(),
        ) && request.url == api.base + "/_pigeon/client/v1/keys/upload"@ && request.bearer
            == api.token && request.body == crate::api::BodyView::Json(
            crate::api::upload_body(device_id, public_key, packages, None),
        ),
        publish_step(api, device_id, PublishEventView::Made(Err(why))) == PublishActionView::Report(
            LogLevel::Warn,
            "could not generate KeyPackages: "@ + why.words(),
        ),
        publish_step(api, device_id, PublishEventView::Uploaded(Ok(body)))
            == PublishActionView::Report(
            LogLevel::Info,
            "published device keys ("@ + crate::text::decimal(
                crate::reply::package_count(body) as nat,
            ) + " KeyPackages available)"@,
        ),
        publish_step(api, device_id, PublishEventView::Uploaded(Err(e)))
            == PublishActionView::Report(
            LogLevel::Warn,
            "device key upload failed (E2EE limited until next login): "@ + e.words(),
        ),
{
}

/// A claimed package shows its own fields.
pub proof fn claimed_packages_show_their_fields(p: ClaimedKeyPackage)
    ensures
        p@.device_id == p.device_id@,
        p@.key_package_b64 == p.key_package_b64@,
{
}

/// A list of claimed packages shows its packages, each at its own place.
pub proof fn claimed_lists_show_their_packages(v: Seq<ClaimedKeyPackage>, i: int)
    ensures
        claimed_views(v).len() == v.len(),
        0 <= i < v.len() ==> claimed_views(v)[i] == v[i]@,
{
}

} // verus!
