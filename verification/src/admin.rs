//! `admin-ajax.php`, `admin-post.php` and `async-upload.php` dispatch:
//! registered actions per surface, with nonce, login and capability checks
//! in WordPress's order.

use vstd::prelude::*;
use crate::text::{
    chars_eq, chars_of, contains_string, copy_string, eq_ignore_case, eq_ignore_case_exec, string_of,
    strs, trim, trim_chars, KeyedList,
};

verus! {

/// The first pair whose key is `action` (ASCII case-insensitively): its
/// trimmed value, `None` when that value is blank.
pub open spec fn action_param(pairs: Seq<(Seq<char>, Seq<char>)>) -> Option<Seq<char>>
    decreases pairs.len(),
{
    if pairs.len() == 0 {
        None
    } else if eq_ignore_case(pairs[0].0, "action"@) {
        if trim(pairs[0].1).len() == 0 {
            None
        } else {
            Some(trim(pairs[0].1))
        }
    } else {
        action_param(pairs.drop_first())
    }
}

pub open spec fn str_pairs(v: Seq<(&str, &str)>) -> Seq<(Seq<char>, Seq<char>)> {
    v.map_values(|p: (&str, &str)| (p.0@, p.1@))
}

/// The admin action named in a query, if any.
pub fn extract_action(query_pairs: &[(&str, &str)]) -> (r: Option<String>)
    ensures
        match r {
            Some(a) => action_param(str_pairs(query_pairs@)) == Some(a@),
            None => action_param(str_pairs(query_pairs@)) is None,
        },
{
    let key = chars_of("action");
    let mut i: usize = 0;
    let ghost all = str_pairs(query_pairs@);
    assert(all.subrange(0, all.len() as int) =~= all);
    while i < query_pairs.len()
        invariant
            all == str_pairs(query_pairs@),
            key@ == "action"@,
            i <= query_pairs@.len(),
            action_param(all) == action_param(all.subrange(i as int, all.len() as int)),
        decreases query_pairs@.len() - i,
    {
        let ghost rest = all.subrange(i as int, all.len() as int);
        assert(rest[0] == (query_pairs@[i as int].0@, query_pairs@[i as int].1@));
        let (k, v) = query_pairs[i];
        if eq_ignore_case_exec(&chars_of(k), &key) {
            let t = trim_chars(&chars_of(v));
            if t.len() == 0 {
                return None;
            }
            return Some(string_of(&t));
        }
        assert(rest.drop_first() =~= all.subrange(i + 1, all.len() as int));
        i += 1;
    }
    None
}

#[derive(Debug, Clone, Copy, PartialEq, Eq, Structural, Hash)]
pub enum AdminSurface {
    Ajax,
    AdminPost,
    AsyncUpload,
}

impl AdminSurface {
    /// The surface's name as `Debug` prints it.
    pub fn name(&self) -> (r: &'static str)
        ensures
            r@ == surface_name(*self),
    {
        match self {
            AdminSurface::Ajax => "Ajax",
            AdminSurface::AdminPost => "AdminPost",
            AdminSurface::AsyncUpload => "AsyncUpload",
        }
    }
}

pub open spec fn surface_name(s: AdminSurface) -> Seq<char> {
    match s {
        AdminSurface::Ajax => "Ajax"@,
        AdminSurface::AdminPost => "AdminPost"@,
        AdminSurface::AsyncUpload => "AsyncUpload"@,
    }
}

#[derive(Debug, Clone)]
pub enum AdminAuth {
    Public,
    Authenticated,
    Capability(String),
}

#[derive(Debug, Clone)]
pub struct AdminAction {
    pub name: String,
    pub surface: AdminSurface,
    pub auth: AdminAuth,
    pub requires_nonce: bool,
    pub allow_nopriv: bool,
}

/// What a registration asks of a request.
pub enum AuthView {
    Public,
    Authenticated,
    Capability(Seq<char>),
}

pub struct ActionView {
    pub name: Seq<char>,
    pub surface: AdminSurface,
    pub auth: AuthView,
    pub requires_nonce: bool,
    pub allow_nopriv: bool,
}

pub open spec fn auth_view(a: AdminAuth) -> AuthView {
    match a {
        AdminAuth::Public => AuthView::Public,
        AdminAuth::Authenticated => AuthView::Authenticated,
        AdminAuth::Capability(c) => AuthView::Capability(c@),
    }
}

impl View for AdminAction {
    type V = ActionView;

    open spec fn view(&self) -> ActionView {
        ActionView {
            name: self.name@,
            surface: self.surface,
            auth: auth_view(self.auth),
            requires_nonce: self.requires_nonce,
            allow_nopriv: self.allow_nopriv,
        }
    }
}

pub open spec fn action_views(v: Seq<AdminAction>) -> Seq<ActionView> {
    v.map_values(|a: AdminAction| a@)
}

#[derive(Debug, Clone)]
pub struct AdminActionRegistry {
    actions: Vec<AdminAction>,
}

#[derive(Debug, Clone)]
pub struct AdminRequest {
    pub surface: AdminSurface,
    pub action: String,
    pub authenticated: bool,
    pub nonce_present: bool,
    pub nonce_valid: bool,
    pub capabilities: Vec<String>,
}

impl AdminRequest {
    /// A request without login, nonce or capabilities.
    pub fn new(surface: AdminSurface, action: &str) -> (r: Self)
        ensures
            r.surface == surface,
            r.action@ == action@,
            !r.authenticated,
            !r.nonce_present,
            !r.nonce_valid,
            r.capabilities@.len() == 0,
    {
        AdminRequest {
            surface,
            action: string_of(&chars_of(action)),
            authenticated: false,
            nonce_present: false,
            nonce_valid: false,
            capabilities: Vec::new(),
        }
    }
}

/// The JSON body of an admin response: `{"code", "message"}` for an error,
/// `{"surface", "action", "ok": true}` for success.
#[derive(Debug, Clone)]
pub enum AdminBody {
    Error { code: String, message: String },
    Success { surface: AdminSurface, action: String },
}

#[derive(Debug, Clone)]
pub struct AdminDispatchResult {
    pub status_code: u16,
    pub body: AdminBody,
    pub error_code: Option<String>,
}

/// How a request is answered.
pub enum AdminDecision {
    Rejected { status: u16, code: Seq<char>, message: Seq<char> },
    Accepted { action: Seq<char> },
}

/// Index of the first action registered under this surface and name.
pub open spec fn find_action(actions: Seq<ActionView>, surface: AdminSurface, name: Seq<char>) -> Option<int>
    decreases actions.len(),
{
    if actions.len() == 0 {
        None
    } else if actions[0].surface == surface && actions[0].name == name {
        Some(0)
    } else {
        match find_action(actions.drop_first(), surface, name) {
            Some(i) => Some(i + 1),
            None => None,
        }
    }
}

pub open spec fn not_logged_in() -> AdminDecision {
    AdminDecision::Rejected {
        status: 401,
        code: "not_logged_in"@,
        message: "Authentication required."@,
    }
}

/// The blank action (400), an unregistered one (404), a missing nonce
/// (403), then the login (401) and capability (403) checks, which
/// `allow_nopriv` waives.
pub open spec fn admin_decision(
    actions: Seq<ActionView>,
    surface: AdminSurface,
    action: Seq<char>,
    authenticated: bool,
    nonce_valid: bool,
    capabilities: Seq<Seq<char>>,
) -> AdminDecision {
    let a = trim(action);
    if a.len() == 0 {
        AdminDecision::Rejected {
            status: 400,
            code: "invalid_action"@,
            message: "Missing or invalid action parameter."@,
        }
    } else {
        match find_action(actions, surface, a) {
            None => AdminDecision::Rejected {
                status: 404,
                code: "unknown_action"@,
                message: "Action is not registered for this admin surface."@,
            },
            Some(i) => {
                let reg = actions[i];
                if reg.requires_nonce && !nonce_valid {
                    AdminDecision::Rejected {
                        status: 403,
                        code: "invalid_nonce"@,
                        message: "Nonce validation failed."@,
                    }
                } else {
                    match reg.auth {
                        AuthView::Public => AdminDecision::Accepted { action: a },
                        AuthView::Authenticated => if !authenticated && !reg.allow_nopriv {
                            not_logged_in()
                        } else {
                            AdminDecision::Accepted { action: a }
                        },
                        AuthView::Capability(c) => if !authenticated && !reg.allow_nopriv {
                            not_logged_in()
                        } else if !capabilities.contains(c) && !reg.allow_nopriv {
                            AdminDecision::Rejected {
                                status: 403,
                                code: "forbidden"@,
                                message: "You are not allowed to perform this action."@,
                            }
                        } else {
                            AdminDecision::Accepted { action: a }
                        },
                    }
                }
            },
        }
    }
}

/// An action registered with `allow_nopriv` (and no nonce requirement, or
/// a valid nonce) is accepted whatever the login and capabilities.
pub proof fn lemma_nopriv_accepted(
    actions: Seq<ActionView>,
    surface: AdminSurface,
    action: Seq<char>,
    authenticated: bool,
    nonce_valid: bool,
    capabilities: Seq<Seq<char>>,
    i: int,
)
    requires
        trim(action).len() > 0,
        find_action(actions, surface, trim(action)) == Some(i),
        actions[i].allow_nopriv,
        !actions[i].requires_nonce || nonce_valid,
    ensures
        admin_decision(actions, surface, action, authenticated, nonce_valid, capabilities)
            == (AdminDecision::Accepted { action: trim(action) }),
{
}

/// An action that needs a login and does not waive it is refused with 401
/// `not_logged_in` to a logged-out request (once its nonce requirement is
/// met), whatever the capabilities; a logged-in request is accepted when
/// the action needs only a login, and when it needs a capability the
/// request holds; one that lacks the capability gets 403 `forbidden`.
pub proof fn lemma_login_required(
    actions: Seq<ActionView>,
    surface: AdminSurface,
    action: Seq<char>,
    nonce_valid: bool,
    capabilities: Seq<Seq<char>>,
    i: int,
)
    requires
        trim(action).len() > 0,
        find_action(actions, surface, trim(action)) == Some(i),
        !actions[i].allow_nopriv,
        actions[i].auth != AuthView::Public,
        !actions[i].requires_nonce || nonce_valid,
    ensures
        admin_decision(actions, surface, action, false, nonce_valid, capabilities) == (
        AdminDecision::Rejected {
            status: 401,
            code: "not_logged_in"@,
            message: "Authentication required."@,
        }),
        actions[i].auth == AuthView::Authenticated ==> admin_decision(
            actions,
            surface,
            action,
            true,
            nonce_valid,
            capabilities,
        ) == (AdminDecision::Accepted { action: trim(action) }),
        actions[i].auth matches AuthView::Capability(c) ==> admin_decision(
            actions,
            surface,
            action,
            true,
            nonce_valid,
            capabilities,
        ) == if capabilities.contains(c) {
            AdminDecision::Accepted { action: trim(action) }
        } else {
            AdminDecision::Rejected {
                status: 403,
                code: "forbidden"@,
                message: "You are not allowed to perform this action."@,
            }
        },
{
}

/// The response that answers a decision.
pub open spec fn answers(r: AdminDispatchResult, d: AdminDecision, surface: AdminSurface) -> bool {
    match d {
        AdminDecision::Rejected { status, code, message } => {
            &&& r.status_code == status
            &&& r.error_code matches Some(e) && e@ == code
            &&& r.body matches AdminBody::Error { code: c, message: m } && c@ == code && m@ == message
        },
        AdminDecision::Accepted { action } => {
            &&& r.status_code == 200
            &&& r.error_code is None
            &&& r.body matches AdminBody::Success { surface: s, action: a } && s == surface && a@
                == action
        },
    }
}

fn admin_error(status_code: u16, code: &str, message: &str) -> (r: AdminDispatchResult)
    ensures
        r.status_code == status_code,
        r.error_code matches Some(e) && e@ == code@,
        r.body matches AdminBody::Error { code: c, message: m } && c@ == code@ && m@ == message@,
{
    AdminDispatchResult {
        status_code,
        body: AdminBody::Error {
            code: string_of(&chars_of(code)),
            message: string_of(&chars_of(message)),
        },
        error_code: Some(string_of(&chars_of(code))),
    }
}

/// The lowercase surface names used as contract keys.
pub open spec fn surface_key(s: AdminSurface) -> Seq<char> {
    match s {
        AdminSurface::Ajax => "ajax"@,
        AdminSurface::AdminPost => "adminpost"@,
        AdminSurface::AsyncUpload => "asyncupload"@,
    }
}

/// Names registered on a surface, in registration order.
pub open spec fn names_on(actions: Seq<ActionView>, s: AdminSurface) -> Seq<Seq<char>>
    decreases actions.len(),
{
    if actions.len() == 0 {
        Seq::empty()
    } else if actions.last().surface == s {
        names_on(actions.drop_last(), s).push(actions.last().name)
    } else {
        names_on(actions.drop_last(), s)
    }
}

pub open spec fn contract_entry(actions: Seq<ActionView>, s: AdminSurface) -> Seq<(Seq<char>, Seq<Seq<char>>)> {
    if names_on(actions, s).len() > 0 {
        seq![(surface_key(s), names_on(actions, s))]
    } else {
        Seq::empty()
    }
}

/// Surface key -> action names, keys in sorted order (`adminpost`, `ajax`,
/// `asyncupload`), surfaces without actions left out.
pub open spec fn admin_contract(actions: Seq<ActionView>) -> Seq<(Seq<char>, Seq<Seq<char>>)> {
    contract_entry(actions, AdminSurface::AdminPost) + contract_entry(actions, AdminSurface::Ajax)
        + contract_entry(actions, AdminSurface::AsyncUpload)
}

pub open spec fn keyed_views(v: Seq<(String, Vec<String>)>) -> Seq<(Seq<char>, Seq<Seq<char>>)> {
    v.map_values(|p: (String, Vec<String>)| (p.0@, strs(p.1@)))
}

impl AdminActionRegistry {
    /// The registered actions, in registration order.
    pub closed spec fn actions(&self) -> Seq<ActionView> {
        action_views(self.actions@)
    }

    pub fn new() -> (r: Self)
        ensures
            r.actions() == Seq::<ActionView>::empty(),
    {
        let r = AdminActionRegistry { actions: Vec::new() };
        assert(r.actions() =~= Seq::<ActionView>::empty());
        r
    }

    pub fn register(
        &mut self,
        surface: AdminSurface,
        name: &str,
        auth: AdminAuth,
        requires_nonce: bool,
        allow_nopriv: bool,
    )
        ensures
            final(self).actions() == old(self).actions().push(
                ActionView {
                    name: name@,
                    surface,
                    auth: auth_view(auth),
                    requires_nonce,
                    allow_nopriv,
                },
            ),
    {
        let ghost before = self.actions@;
        self.actions.push(
            AdminAction {
                name: string_of(&chars_of(name)),
                surface,
                auth,
                requires_nonce,
                allow_nopriv,
            },
        );
        assert(self.actions() =~= action_views(before).push(self.actions@.last()@));
    }

    fn find(&self, surface: AdminSurface, name: &[char]) -> (r: Option<usize>)
        ensures
            match r {
                Some(i) => i < self.actions@.len() && find_action(self.actions(), surface, name@)
                    == Some(i as int),
                None => find_action(self.actions(), surface, name@) is None,
            },
    {
        let ghost all = self.actions();
        let mut i: usize = 0;
        assert(all.subrange(0, all.len() as int) =~= all);
        while i < self.actions.len()
            invariant
                all == self.actions(),
                i <= self.actions@.len(),
                find_action(all, surface, name@) == match find_action(
                    all.subrange(i as int, all.len() as int),
                    surface,
                    name@,
                ) {
                    Some(j) => Some(j + i),
                    None => None,
                },
            decreases self.actions@.len() - i,
        {
            let ghost rest = all.subrange(i as int, all.len() as int);
            assert(rest[0] == self.actions@[i as int]@);
            if self.actions[i].surface == surface && chars_eq(
                &chars_of(self.actions[i].name.as_str()),
                name,
            ) {
                return Some(i);
            }
            assert(rest.drop_first() =~= all.subrange(i + 1, all.len() as int));
            i += 1;
        }
        None
    }

    /// Answers an admin request (see `admin_decision`).
    pub fn dispatch(&self, request: &AdminRequest) -> (r: AdminDispatchResult)
        ensures
            answers(
                r,
                admin_decision(
                    self.actions(),
                    request.surface,
                    request.action@,
                    request.authenticated,
                    request.nonce_valid,
                    strs(request.capabilities@),
                ),
                request.surface,
            ),
    {
        let action = trim_chars(&chars_of(request.action.as_str()));
        if action.len() == 0 {
            return admin_error(400, "invalid_action", "Missing or invalid action parameter.");
        }
        let i = match self.find(request.surface, &action) {
            Some(i) => i,
            None => {
                return admin_error(
                    404,
                    "unknown_action",
                    "Action is not registered for this admin surface.",
                );
            },
        };
        let reg = &self.actions[i];
        assert(self.actions()[i as int] == reg@);
        if reg.requires_nonce && !request.nonce_valid {
            return admin_error(403, "invalid_nonce", "Nonce validation failed.");
        }
        match &reg.auth {
            AdminAuth::Public => {},
            AdminAuth::Authenticated => {
                if !request.authenticated && !reg.allow_nopriv {
                    return admin_error(401, "not_logged_in", "Authentication required.");
                }
            },
            AdminAuth::Capability(c) => {
                if !request.authenticated && !reg.allow_nopriv {
                    return admin_error(401, "not_logged_in", "Authentication required.");
                }
                if !contains_string(&request.capabilities, &chars_of(c.as_str()))
                    && !reg.allow_nopriv {
                    return admin_error(
                        403,
                        "forbidden",
                        "You are not allowed to perform this action.",
                    );
                }
            },
        }
        AdminDispatchResult {
            status_code: 200,
            body: AdminBody::Success { surface: request.surface, action: string_of(&action) },
            error_code: None,
        }
    }

    fn names_for(&self, s: AdminSurface) -> (r: Vec<String>)
        ensures
            strs(r@) == names_on(self.actions(), s),
    {
        let ghost all = self.actions();
        let mut r: Vec<String> = Vec::new();
        let mut i: usize = 0;
        assert(all.subrange(0, 0) =~= Seq::<ActionView>::empty());
        assert(strs(r@) =~= Seq::<Seq<char>>::empty());
        while i < self.actions.len()
            invariant
                all == self.actions(),
                i <= self.actions@.len(),
                strs(r@) == names_on(all.subrange(0, i as int), s),
            decreases self.actions@.len() - i,
        {
            assert(all.subrange(0, i + 1).drop_last() =~= all.subrange(0, i as int));
            assert(all.subrange(0, i + 1).last() == self.actions@[i as int]@);
            if self.actions[i].surface == s {
                let ghost before = r@;
                r.push(copy_string(&self.actions[i].name));
                assert(strs(r@) =~= strs(before).push(self.actions@[i as int].name@));
            }
            i += 1;
        }
        assert(all.subrange(0, i as int) =~= all);
        r
    }

    /// Action names per surface key (see `admin_contract`).
    pub fn contract_map(&self) -> (r: KeyedList<Vec<String>>)
        ensures
            keyed_views(r.entries@) == admin_contract(self.actions()),
    {
        let mut entries: Vec<(String, Vec<String>)> = Vec::new();
        let surfaces = [AdminSurface::AdminPost, AdminSurface::Ajax, AdminSurface::AsyncUpload];
        let keys = ["adminpost", "ajax", "asyncupload"];
        let ghost parts = seq![
            contract_entry(self.actions(), AdminSurface::AdminPost),
            contract_entry(self.actions(), AdminSurface::Ajax),
            contract_entry(self.actions(), AdminSurface::AsyncUpload),
        ];
        let mut k: usize = 0;
        assert(keyed_views(entries@) =~= Seq::<(Seq<char>, Seq<Seq<char>>)>::empty());
        while k < 3
            invariant
                k <= 3,
                surfaces@ == seq![AdminSurface::AdminPost, AdminSurface::Ajax, AdminSurface::AsyncUpload],
                keys@.len() == 3,
                forall|j: int| 0 <= j < 3 ==> (#[trigger] keys@[j])@ == surface_key(surfaces@[j]),
                parts == seq![
                    contract_entry(self.actions(), AdminSurface::AdminPost),
                    contract_entry(self.actions(), AdminSurface::Ajax),
                    contract_entry(self.actions(), AdminSurface::AsyncUpload),
                ],
                keyed_views(entries@) == if k == 0 {
                    Seq::empty()
                } else if k == 1 {
                    parts[0]
                } else if k == 2 {
                    parts[0] + parts[1]
                } else {
                    parts[0] + parts[1] + parts[2]
                },
            decreases 3 - k,
        {
            let names = self.names_for(surfaces[k]);
            if names.len() > 0 {
                let ghost before = entries@;
                entries.push((string_of(&chars_of(keys[k])), names));
                assert(keyed_views(entries@) =~= keyed_views(before).push(
                    (surface_key(surfaces@[k as int]), names_on(self.actions(), surfaces@[k as int])),
                ));
            }
            proof {
                if k == 0 {
                    assert(keyed_views(entries@) =~= parts[0]);
                } else if k == 1 {
                    assert(keyed_views(entries@) =~= parts[0] + parts[1]);
                } else {
                    assert(keyed_views(entries@) =~= parts[0] + parts[1] + parts[2]);
                }
            }
            k += 1;
        }
        KeyedList { entries }
    }
}

impl Default for AdminActionRegistry {
    fn default() -> (r: Self)
        ensures
            r.actions() == Seq::<ActionView>::empty(),
    {
        AdminActionRegistry::new()
    }
}

pub open spec fn admin_entry(
    surface: AdminSurface,
    name: Seq<char>,
    auth: AuthView,
    requires_nonce: bool,
    allow_nopriv: bool,
) -> ActionView {
    ActionView { name, surface, auth, requires_nonce, allow_nopriv }
}

/// WordPress core's admin actions.
pub open spec fn core_admin_list() -> Seq<ActionView> {
    seq![
        admin_entry(AdminSurface::Ajax, "heartbeat"@, AuthView::Authenticated, true, false),
        admin_entry(AdminSurface::Ajax, "rest-nonce"@, AuthView::Authenticated, true, false),
        admin_entry(AdminSurface::Ajax, "logged-out"@, AuthView::Public, false, true),
        admin_entry(AdminSurface::Ajax, "delete-comment"@, AuthView::Capability("moderate_comments"@), true, false),
        admin_entry(AdminSurface::Ajax, "save-widget"@, AuthView::Capability("edit_theme_options"@), true, false),
        admin_entry(AdminSurface::AdminPost, "save_post"@, AuthView::Capability("edit_posts"@), true, false),
        admin_entry(AdminSurface::AdminPost, "update-user"@, AuthView::Capability("edit_users"@), true, false),
        admin_entry(AdminSurface::AsyncUpload, "upload-attachment"@, AuthView::Capability("upload_files"@), true, false),
    ]
}

fn capability(name: &str) -> (r: AdminAuth)
    ensures
        auth_view(r) == AuthView::Capability(name@),
{
    AdminAuth::Capability(string_of(&chars_of(name)))
}

pub fn core_admin_actions() -> (r: AdminActionRegistry)
    ensures
        r.actions() == core_admin_list(),
{
    let mut registry = AdminActionRegistry::new();
    registry.register(AdminSurface::Ajax, "heartbeat", AdminAuth::Authenticated, true, false);
    registry.register(AdminSurface::Ajax, "rest-nonce", AdminAuth::Authenticated, true, false);
    registry.register(AdminSurface::Ajax, "logged-out", AdminAuth::Public, false, true);
    registry.register(AdminSurface::Ajax, "delete-comment", capability("moderate_comments"), true, false);
    registry.register(AdminSurface::Ajax, "save-widget", capability("edit_theme_options"), true, false);
    registry.register(AdminSurface::AdminPost, "save_post", capability("edit_posts"), true, false);
    registry.register(AdminSurface::AdminPost, "update-user", capability("edit_users"), true, false);
    registry.register(AdminSurface::AsyncUpload, "upload-attachment", capability("upload_files"), true, false);
    assert(registry.actions() =~= core_admin_list());
    registry
}

} // verus!
