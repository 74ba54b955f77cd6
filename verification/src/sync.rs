//! The account state of the sync service and which request each change
//! sends to it.
use vstd::prelude::*;

use crate::commands::{full_sync_of, full_sync_snapshot, FullSync, FullSyncView};
use crate::database::Database;
use crate::text::{copy_opt, copy_str, opt_view, str_eq};

verus! {

broadcast use vstd::string::group_string_axioms;

/// What serde_json reads as the text under the key `key` of the JSON
/// object written in `text`: none when `text` is not JSON, is not an
/// object, lacks the key, or holds something other than a string there.
/// A function of its arguments alone.
pub uninterp spec fn json_str_member(text: Seq<char>, key: Seq<char>) -> Option<Seq<char>>;

/// Parses `text` with `serde_json::from_str` into a `serde_json::Value`
/// and reads `value[key].as_str()`. Claimed: the result is
/// `json_str_member(text, key)`; nothing more is claimed of that name.
#[verifier::external_body]
fn json_str_field(text: &str, key: &str) -> (r: Option<String>)
    ensures
        opt_view(r) == json_str_member(text@, key@),
{
    let value: serde_json::Value = serde_json::from_str(text).ok()?;
    value[key].as_str().map(String::from)
}

/// The collection a change names: the text under `local_id` in its JSON
/// payload, or the empty text when there is none.
pub open spec fn payload_local_id(payload: Seq<char>) -> Seq<char> {
    match json_str_member(payload, "local_id"@) {
        Some(id) => id,
        None => Seq::empty(),
    }
}

/// The collection the JSON payload `payload` names.
fn local_id_of(payload: &str) -> (r: String)
    ensures
        r@ == payload_local_id(payload@),
{
    match json_str_field(payload, "local_id") {
        Some(id) => id,
        None => String::new(),
    }
}

/// The address of the service used until another is set.
pub open spec fn default_api_url() -> Seq<char> {
    "http://localhost:3456/api"@
}

/// Who is signed in to the sync service, and where it is.
#[derive(Debug)]
pub struct SyncState {
    pub token: Option<String>,
    pub api_url: String,
    pub device_id: Option<i64>,
    pub user_email: Option<String>,
}

/// The mathematical value of a `SyncState`.
pub struct SyncStateView {
    pub token: Option<Seq<char>>,
    pub api_url: Seq<char>,
    pub device_id: Option<i64>,
    pub user_email: Option<Seq<char>>,
}

impl View for SyncState {
    type V = SyncStateView;

    open spec fn view(&self) -> SyncStateView {
        SyncStateView {
            token: opt_view(self.token),
            api_url: self.api_url@,
            device_id: self.device_id,
            user_email: opt_view(self.user_email),
        }
    }
}

impl Default for SyncState {
    fn default() -> (r: Self)
        ensures
            r@ == (SyncStateView {
                token: None,
                api_url: default_api_url(),
                device_id: None,
                user_email: None,
            }),
    {
        SyncState {
            token: None,
            api_url: "http://localhost:3456/api".to_string(),
            device_id: None,
            user_email: None,
        }
    }
}

impl SyncState {
    /// A field-by-field copy.
    pub fn copy(&self) -> (r: Self)
        ensures
            r@ == self@,
    {
        SyncState {
            token: copy_opt(&self.token),
            api_url: self.api_url.clone(),
            device_id: self.device_id,
            user_email: copy_opt(&self.user_email),
        }
    }
}

/// A change waiting to be sent to the service: its action and its JSON
/// payload.
#[derive(Debug)]
pub struct QueueItem {
    pub action: String,
    pub payload: String,
}

/// The mathematical value of a `QueueItem`.
pub struct QueueView {
    pub action: Seq<char>,
    pub payload: Seq<char>,
}

impl View for QueueItem {
    type V = QueueView;

    open spec fn view(&self) -> QueueView {
        QueueView { action: self.action@, payload: self.payload@ }
    }
}

/// The values of a run of queued changes.
pub open spec fn queue_view(v: Seq<QueueItem>) -> Seq<QueueView> {
    v.map_values(|q: QueueItem| q@)
}

/// The change `action` with `payload` as it is queued.
pub open spec fn queued(action: Seq<char>, payload: Seq<char>) -> QueueView {
    QueueView { action, payload }
}

/// A change that was sent as it happened, kept for the offline queue when
/// it was not delivered: the service could not be reached or did not
/// accept it. A delivered change is not kept.
pub fn offline_entry(action: &str, payload: &str, delivered: bool) -> (r: Option<QueueItem>)
    ensures
        delivered ==> r is None,
        !delivered ==> (r matches Some(q) && q@ == queued(action@, payload@)),
{
    if delivered {
        None
    } else {
        Some(QueueItem { action: copy_str(action), payload: copy_str(payload) })
    }
}

/// SyncItem as the service lists it.
#[derive(Debug)]
pub struct SyncItem {
    pub id: i64,
    pub content: String,
    pub item_type: String,
    pub created_at: String,
}

/// The HTTP method of a request.
#[derive(Debug, Clone, Copy, PartialEq, Eq, Structural)]
pub enum HttpMethod {
    Post,
    Put,
    Delete,
}

/// What a request carries as its JSON body.
#[derive(Debug)]
pub enum RequestBody {
    /// Nothing.
    Empty,
    /// The payload of the change, as it is.
    Payload,
    /// An object with `local_id` (this text), and `content` and `item_type`
    /// taken from the payload.
    CollectionItem { local_id: String },
    /// An object with `device_name` (this text) and `device_type` "desktop".
    Device { device_name: String },
    /// An object with `clipboard_items` and `collections` as `snapshot`
    /// holds them, and `device_id`.
    FullSync { snapshot: FullSync, device_id: i64 },
}

/// A request to send to the sync service.
#[derive(Debug)]
pub struct SyncRequest {
    pub method: HttpMethod,
    pub url: String,
    /// The value of the `Authorization` header.
    pub authorization: String,
    pub body: RequestBody,
}

/// The mathematical value of a `RequestBody`.
pub enum BodyView {
    Empty,
    Payload,
    CollectionItem { local_id: Seq<char> },
    Device { device_name: Seq<char> },
    FullSync { snapshot: FullSyncView, device_id: i64 },
}

/// The mathematical value of a `SyncRequest`.
pub struct RequestView {
    pub method: HttpMethod,
    pub url: Seq<char>,
    pub authorization: Seq<char>,
    pub body: BodyView,
}

impl View for SyncRequest {
    type V = RequestView;

    open spec fn view(&self) -> RequestView {
        RequestView {
            method: self.method,
            url: self.url@,
            authorization: self.authorization@,
            body: match self.body {
                RequestBody::Empty => BodyView::Empty,
                RequestBody::Payload => BodyView::Payload,
                RequestBody::CollectionItem { local_id } => BodyView::CollectionItem {
                    local_id: local_id@,
                },
                RequestBody::Device { device_name } => BodyView::Device {
                    device_name: device_name@,
                },
                RequestBody::FullSync { snapshot, device_id } => BodyView::FullSync {
                    snapshot: snapshot@,
                    device_id: device_id,
                },
            },
        }
    }
}

/// The `Authorization` header for `token`.
pub open spec fn bearer(token: Seq<char>) -> Seq<char> {
    "Bearer "@ + token
}

/// The request for the change `action` of the collection `local_id` as
/// the background sender makes it; none for an action it does not know.
pub open spec fn send_route(api: Seq<char>, action: Seq<char>, local_id: Seq<char>) -> Option<(HttpMethod, Seq<char>, BodyView)> {
    if action == "push_clipboard"@ {
        Some((HttpMethod::Post, api + "/sync"@, BodyView::Payload))
    } else if action == "create_collection"@ {
        Some((HttpMethod::Post, api + "/collections"@, BodyView::Payload))
    } else if action == "delete_collection"@ {
        Some((HttpMethod::Delete, api + "/collections/local/"@ + local_id, BodyView::Empty))
    } else if action == "rename_collection"@ || action == "update_color"@ {
        Some((HttpMethod::Put, api + "/collections/local/"@ + local_id, BodyView::Payload))
    } else if action == "add_to_collection"@ {
        Some(
            (
                HttpMethod::Post,
                api + "/collections/local/"@ + local_id + "/items"@,
                BodyView::Payload,
            ),
        )
    } else if action == "remove_from_collection"@ {
        Some(
            (
                HttpMethod::Delete,
                api + "/collections/local/"@ + local_id + "/items"@,
                BodyView::Payload,
            ),
        )
    } else if action == "edit_sync_item"@ {
        Some((HttpMethod::Put, api + "/sync/item"@, BodyView::Payload))
    } else if action == "edit_collection_item"@ {
        Some(
            (
                HttpMethod::Put,
                api + "/collections/local/"@ + local_id + "/items"@,
                BodyView::Payload,
            ),
        )
    } else {
        None
    }
}

/// The request for the change `action` of the collection `local_id` as a
/// queued change is replayed; none for an action it does not know.
pub open spec fn replay_route(api: Seq<char>, action: Seq<char>, local_id: Seq<char>) -> Option<(HttpMethod, Seq<char>, BodyView)> {
    if action == "push_clipboard"@ {
        Some((HttpMethod::Post, api + "/sync"@, BodyView::Payload))
    } else if action == "create_collection"@ {
        Some((HttpMethod::Post, api + "/collections"@, BodyView::Payload))
    } else if action == "delete_collection"@ {
        Some((HttpMethod::Delete, api + "/collections/local/"@ + local_id, BodyView::Empty))
    } else if action == "rename_collection"@ || action == "update_color"@ {
        Some((HttpMethod::Put, api + "/collections/local/"@ + local_id, BodyView::Payload))
    } else if action == "add_to_collection"@ {
        Some(
            (
                HttpMethod::Post,
                api + "/collections"@,
                BodyView::CollectionItem { local_id: local_id },
            ),
        )
    } else if action == "remove_from_collection"@ {
        Some(
            (
                HttpMethod::Delete,
                api + "/collections/local/"@ + local_id + "/items"@,
                BodyView::Payload,
            ),
        )
    } else {
        None
    }
}

/// `a` followed by `b`.
fn join(a: &str, b: &str) -> (r: String)
    ensures
        r@ == a@ + b@,
{
    let mut r = a.to_string();
    r.append(b);
    r
}

/// `a`, `b` and `c` one after another.
fn join3(a: &str, b: &str, c: &str) -> (r: String)
    ensures
        r@ == a@ + b@ + c@,
{
    let mut r = join(a, b);
    r.append(c);
    r
}

/// `a`, `b`, `c` and `d` one after another.
fn join4(a: &str, b: &str, c: &str, d: &str) -> (r: String)
    ensures
        r@ == a@ + b@ + c@ + d@,
{
    let mut r = join3(a, b, c);
    r.append(d);
    r
}

/// The request whose method, address and body are `route`, signed with
/// `token`.
pub open spec fn request_of(token: Seq<char>, route: (HttpMethod, Seq<char>, BodyView)) -> RequestView {
    RequestView { method: route.0, url: route.1, authorization: bearer(token), body: route.2 }
}

/// Plans the request of `action` for the collection `local_id`, signed
/// with `token`; `replay` chooses the routes used when a queued change is
/// replayed over those of the background sender.
pub fn plan_request(api: &str, token: &str, action: &str, local_id: &str, replay: bool) -> (r: Option<SyncRequest>)
    ensures
        ({
            let route = if replay {
                replay_route(api@, action@, local_id@)
            } else {
                send_route(api@, action@, local_id@)
            };
            &&& r is Some <==> route is Some
            &&& r matches Some(q) ==> q@ == request_of(token@, route->0)
        }),
{
    let auth = join("Bearer ", token);
    if str_eq(action, "push_clipboard") {
        Some(SyncRequest { method: HttpMethod::Post, url: join(api, "/sync"), authorization: auth, body: RequestBody::Payload })
    } else if str_eq(action, "create_collection") {
        Some(SyncRequest { method: HttpMethod::Post, url: join(api, "/collections"), authorization: auth, body: RequestBody::Payload })
    } else if str_eq(action, "delete_collection") {
        Some(SyncRequest { method: HttpMethod::Delete, url: join3(api, "/collections/local/", local_id), authorization: auth, body: RequestBody::Empty })
    } else if str_eq(action, "rename_collection") || str_eq(action, "update_color") {
        Some(SyncRequest { method: HttpMethod::Put, url: join3(api, "/collections/local/", local_id), authorization: auth, body: RequestBody::Payload })
    } else if str_eq(action, "add_to_collection") {
        if replay {
            Some(SyncRequest { method: HttpMethod::Post, url: join(api, "/collections"), authorization: auth, body: RequestBody::CollectionItem { local_id: copy_str(local_id) } })
        } else {
            Some(SyncRequest { method: HttpMethod::Post, url: join4(api, "/collections/local/", local_id, "/items"), authorization: auth, body: RequestBody::Payload })
        }
    } else if str_eq(action, "remove_from_collection") {
        Some(SyncRequest { method: HttpMethod::Delete, url: join4(api, "/collections/local/", local_id, "/items"), authorization: auth, body: RequestBody::Payload })
    } else if !replay && str_eq(action, "edit_sync_item") {
        Some(SyncRequest { method: HttpMethod::Put, url: join(api, "/sync/item"), authorization: auth, body: RequestBody::Payload })
    } else if !replay && str_eq(action, "edit_collection_item") {
        Some(SyncRequest { method: HttpMethod::Put, url: join4(api, "/collections/local/", local_id, "/items"), authorization: auth, body: RequestBody::Payload })
    } else {
        None
    }
}

/// The sync service session: who is signed in, and the changes waiting to
/// be sent.
pub struct SyncManager {
    state: SyncState,
    queue: Vec<QueueItem>,
}

impl SyncManager {
    /// The session state.
    pub closed spec fn state(&self) -> SyncStateView {
        self.state@
    }

    /// The changes waiting, oldest first.
    pub closed spec fn queue(&self) -> Seq<QueueView> {
        queue_view(self.queue@)
    }

    /// A session with nobody signed in and nothing waiting.
    pub fn new() -> (r: Self)
        ensures
            r.state() == (SyncStateView {
                token: None,
                api_url: default_api_url(),
                device_id: None,
                user_email: None,
            }),
            r.queue() == Seq::<QueueView>::empty(),
    {
        let r = SyncManager { state: SyncState::default(), queue: Vec::new() };
        assert(r.queue() =~= Seq::<QueueView>::empty());
        r
    }

    /// Signs in with `token` as `email` on `device_id`.
    pub fn set_auth(&mut self, token: String, email: String, device_id: Option<i64>)
        ensures
            final(self).state() == (SyncStateView {
                token: Some(token@),
                user_email: Some(email@),
                device_id: device_id,
                ..old(self).state()
            }),
            final(self).queue() == old(self).queue(),
    {
        self.state.token = Some(token);
        self.state.user_email = Some(email);
        self.state.device_id = device_id;
    }

    /// Signs out.
    pub fn clear_auth(&mut self)
        ensures
            final(self).state() == (SyncStateView {
                token: None,
                user_email: None,
                device_id: None,
                ..old(self).state()
            }),
            final(self).queue() == old(self).queue(),
    {
        self.state.token = None;
        self.state.user_email = None;
        self.state.device_id = None;
    }

    /// Is somebody signed in?
    pub fn is_logged_in(&self) -> (r: bool)
        ensures
            r == self.state().token is Some,
    {
        self.state.token.is_some()
    }

    /// A copy of the session state.
    pub fn get_state(&self) -> (r: SyncState)
        ensures
            r@ == self.state(),
    {
        self.state.copy()
    }

    /// Adds the change `action` with the JSON `payload` to the end of the
    /// waiting list.
    pub fn enqueue(&mut self, action: &str, payload: String)
        ensures
            final(self).state() == old(self).state(),
            final(self).queue() == old(self).queue().push(queued(action@, payload@)),
    {
        let ghost before = self.queue@;
        self.queue.push(QueueItem { action: copy_str(action), payload });
        assert(queue_view(self.queue@) =~= queue_view(before).push(queued(action@, payload@)));
    }

    /// Takes every waiting change out, oldest first.
    pub fn drain_queue(&mut self) -> (r: Vec<QueueItem>)
        ensures
            queue_view(r@) == old(self).queue(),
            final(self).queue() == Seq::<QueueView>::empty(),
            final(self).state() == old(self).state(),
    {
        let mut items: Vec<QueueItem> = Vec::new();
        std::mem::swap(&mut items, &mut self.queue);
        assert(queue_view(self.queue@) =~= Seq::<QueueView>::empty());
        items
    }

    /// The request that sends the change `action` with the JSON `payload`
    /// as it happens; none when nobody is signed in or the action is
    /// unknown. The collection in the address is the payload's `local_id`.
    pub fn send_or_queue(&self, action: &str, payload: &str) -> (r: Option<SyncRequest>)
        ensures
            self.state().token is None ==> r is None,
            self.state().token matches Some(token) ==> {
                let route = send_route(self.state().api_url, action@, payload_local_id(payload@));
                &&& r is Some <==> route is Some
                &&& r matches Some(q) ==> q@ == request_of(token, route->0)
            },
    {
        match &self.state.token {
            None => None,
            Some(token) => {
                let local_id = local_id_of(payload);
                plan_request(self.state.api_url.as_str(), token.as_str(), action, local_id.as_str(), false)
            },
        }
    }

    /// The request that replays the queued change `action` with the JSON
    /// `payload`; none when nobody is signed in or the action is unknown.
    /// The collection it names is the payload's `local_id`.
    pub fn process_action(&self, action: &str, payload: &str) -> (r: Option<SyncRequest>)
        ensures
            self.state().token is None ==> r is None,
            self.state().token matches Some(token) ==> {
                let route = replay_route(self.state().api_url, action@, payload_local_id(payload@));
                &&& r is Some <==> route is Some
                &&& r matches Some(q) ==> q@ == request_of(token, route->0)
            },
    {
        match &self.state.token {
            None => None,
            Some(token) => {
                let local_id = local_id_of(payload);
                plan_request(self.state.api_url.as_str(), token.as_str(), action, local_id.as_str(), true)
            },
        }
    }

    /// Signing in, first step: keeps `token` and `email` (no device yet)
    /// and gives the request that registers this device under
    /// `device_name`. Its answer goes to `device_registered`, then
    /// `finish_login` gives the full sync.
    pub fn login(&mut self, token: String, email: String, device_name: &str) -> (r: SyncRequest)
        ensures
            final(self).state() == (SyncStateView {
                token: Some(token@),
                user_email: Some(email@),
                device_id: None,
                ..old(self).state()
            }),
            final(self).queue() == old(self).queue(),
            r@ == (RequestView {
                method: HttpMethod::Post,
                url: old(self).state().api_url + "/devices"@,
                authorization: bearer(token@),
                body: BodyView::Device { device_name: device_name@ },
            }),
    {
        let authorization = join("Bearer ", token.as_str());
        self.set_auth(token, email, None);
        SyncRequest {
            method: HttpMethod::Post,
            url: join(self.state.api_url.as_str(), "/devices"),
            authorization,
            body: RequestBody::Device { device_name: copy_str(device_name) },
        }
    }

    /// Signing in, last step, whatever registering the device gave: the
    /// full sync of `db` (the listing's newest entries and every collection,
    /// with the registered device, 0 when there is none) and the reply to
    /// the user, which is the same whether or not the full sync arrives.
    pub fn finish_login(&self, db: &Database) -> (r: (SyncRequest, String))
        ensures
            r.0@ == (RequestView {
                method: HttpMethod::Post,
                url: self.state().api_url + "/sync/full"@,
                authorization: bearer(
                    match self.state().token {
                        Some(t) => t,
                        None => Seq::empty(),
                    },
                ),
                body: BodyView::FullSync {
                    snapshot: full_sync_of(db@),
                    device_id: match self.state().device_id {
                        Some(d) => d,
                        None => 0,
                    },
                },
            }),
            r.1@ == "Giriş yapıldı, veriler senkronize edildi"@,
    {
        proof {
            reveal_strlit("");
        }
        let token = match &self.state.token {
            Some(t) => t.as_str(),
            None => "",
        };
        let device_id = match self.state.device_id {
            Some(d) => d,
            None => 0,
        };
        let request = SyncRequest {
            method: HttpMethod::Post,
            url: join(self.state.api_url.as_str(), "/sync/full"),
            authorization: join("Bearer ", token),
            body: RequestBody::FullSync { snapshot: full_sync_snapshot(db), device_id },
        };
        (request, "Giriş yapıldı, veriler senkronize edildi".to_string())
    }

    /// The request that registers this device under `device_name`; an
    /// error when nobody is signed in.
    pub fn register_device(&self, device_name: &str) -> (r: Result<SyncRequest, String>)
        ensures
            r is Ok <==> self.state().token is Some,
            r matches Ok(q) ==> q@ == (RequestView {
                method: HttpMethod::Post,
                url: self.state().api_url + "/devices"@,
                authorization: bearer(self.state().token->0),
                body: BodyView::Device { device_name: device_name@ },
            }),
            r matches Err(e) ==> e@ == "Giriş yapılmamış"@,
    {
        match &self.state.token {
            None => Err("Giriş yapılmamış".to_string()),
            Some(token) => Ok(
                SyncRequest {
                    method: HttpMethod::Post,
                    url: join(self.state.api_url.as_str(), "/devices"),
                    authorization: join("Bearer ", token.as_str()),
                    body: RequestBody::Device { device_name: copy_str(device_name) },
                },
            ),
        }
    }

    /// Takes the answer to the registration: `accepted` tells whether the
    /// service accepted it, `device_id` is the id read from its reply (or
    /// the reason it could not be read). On success the id is kept.
    pub fn device_registered(&mut self, accepted: bool, device_id: Result<i64, String>) -> (r: Result<
        i64,
        String,
    >)
        ensures
            !accepted ==> (r matches Err(e) && e@ == "Device kaydedilemedi"@),
            accepted ==> match device_id {
                Ok(id) => r == Ok::<i64, String>(id),
                Err(why) => (r matches Err(e) && e@ == "Parse hatası: "@ + why@),
            },
            r matches Ok(id) ==> final(self).state() == (SyncStateView {
                device_id: Some(id),
                ..old(self).state()
            }),
            r is Err ==> final(self).state() == old(self).state(),
            final(self).queue() == old(self).queue(),
    {
        if !accepted {
            return Err("Device kaydedilemedi".to_string());
        }
        match device_id {
            Ok(id) => {
                self.state.device_id = Some(id);
                Ok(id)
            },
            Err(why) => Err(join("Parse hatası: ", why.as_str())),
        }
    }
}

} // verus!
