//! Endpoint classification and the XML-RPC method registry.

use vstd::prelude::*;
use crate::text::{
    append_chars, append_str, chars_eq, chars_of, collapse_slashes, collapse_slashes_exec,
    copy_range, find, find_from, first_occurrence, i64_to_chars, int_decimal, is_ws,
    lemma_collapse_slashes, lemma_trim_ends, lemma_trim_fixed, no_double_slash, occurs_at, starts_with, string_of,
    trim, trim_chars,
};

verus! {

/// High-level WordPress endpoint categories used by the migration gateway.
#[derive(Debug, Clone, Copy, PartialEq, Eq, Structural)]
pub enum EndpointKind {
    Frontend,
    Login,
    Signup,
    Activate,
    CommentsPost,
    Cron,
    XmlRpc,
    Mail,
    Trackback,
    LinksOpml,
    AdminAjax,
    AdminPost,
    AsyncUpload,
    Unknown,
}

pub open spec fn kind_name(k: EndpointKind) -> Seq<char> {
    match k {
        EndpointKind::Frontend => "frontend"@,
        EndpointKind::Login => "wp-login"@,
        EndpointKind::Signup => "wp-signup"@,
        EndpointKind::Activate => "wp-activate"@,
        EndpointKind::CommentsPost => "wp-comments-post"@,
        EndpointKind::Cron => "wp-cron"@,
        EndpointKind::XmlRpc => "xmlrpc"@,
        EndpointKind::Mail => "wp-mail"@,
        EndpointKind::Trackback => "wp-trackback"@,
        EndpointKind::LinksOpml => "wp-links-opml"@,
        EndpointKind::AdminAjax => "wp-admin/admin-ajax"@,
        EndpointKind::AdminPost => "wp-admin/admin-post"@,
        EndpointKind::AsyncUpload => "wp-admin/async-upload"@,
        EndpointKind::Unknown => "unknown"@,
    }
}

impl EndpointKind {
    pub fn as_str(&self) -> (r: &'static str)
        ensures
            r@ == kind_name(*self),
    {
        match self {
            EndpointKind::Frontend => "frontend",
            EndpointKind::Login => "wp-login",
            EndpointKind::Signup => "wp-signup",
            EndpointKind::Activate => "wp-activate",
            EndpointKind::CommentsPost => "wp-comments-post",
            EndpointKind::Cron => "wp-cron",
            EndpointKind::XmlRpc => "xmlrpc",
            EndpointKind::Mail => "wp-mail",
            EndpointKind::Trackback => "wp-trackback",
            EndpointKind::LinksOpml => "wp-links-opml",
            EndpointKind::AdminAjax => "wp-admin/admin-ajax",
            EndpointKind::AdminPost => "wp-admin/admin-post",
            EndpointKind::AsyncUpload => "wp-admin/async-upload",
            EndpointKind::Unknown => "unknown",
        }
    }
}

/// The endpoint kind of an already normalized path.
pub open spec fn kind_of(p: Seq<char>) -> EndpointKind {
    if p == "/index.php"@ || p == "/"@ {
        EndpointKind::Frontend
    } else if p == "/wp-login.php"@ {
        EndpointKind::Login
    } else if p == "/wp-signup.php"@ {
        EndpointKind::Signup
    } else if p == "/wp-activate.php"@ {
        EndpointKind::Activate
    } else if p == "/wp-comments-post.php"@ {
        EndpointKind::CommentsPost
    } else if p == "/wp-cron.php"@ {
        EndpointKind::Cron
    } else if p == "/xmlrpc.php"@ {
        EndpointKind::XmlRpc
    } else if p == "/wp-mail.php"@ {
        EndpointKind::Mail
    } else if p == "/wp-trackback.php"@ {
        EndpointKind::Trackback
    } else if p == "/wp-links-opml.php"@ {
        EndpointKind::LinksOpml
    } else if p == "/wp-admin/admin-ajax.php"@ {
        EndpointKind::AdminAjax
    } else if p == "/wp-admin/admin-post.php"@ {
        EndpointKind::AdminPost
    } else if p == "/wp-admin/async-upload.php"@ {
        EndpointKind::AsyncUpload
    } else {
        EndpointKind::Unknown
    }
}

pub fn detect_endpoint_kind(path: &str) -> (r: EndpointKind)
    ensures
        r == kind_of(normalized_path(path@)),
{
    let n = normalize_path(path);
    let p = chars_of(n.as_str());
    if chars_eq(&p, &chars_of("/index.php")) || chars_eq(&p, &chars_of("/")) {
        EndpointKind::Frontend
    } else if chars_eq(&p, &chars_of("/wp-login.php")) {
        EndpointKind::Login
    } else if chars_eq(&p, &chars_of("/wp-signup.php")) {
        EndpointKind::Signup
    } else if chars_eq(&p, &chars_of("/wp-activate.php")) {
        EndpointKind::Activate
    } else if chars_eq(&p, &chars_of("/wp-comments-post.php")) {
        EndpointKind::CommentsPost
    } else if chars_eq(&p, &chars_of("/wp-cron.php")) {
        EndpointKind::Cron
    } else if chars_eq(&p, &chars_of("/xmlrpc.php")) {
        EndpointKind::XmlRpc
    } else if chars_eq(&p, &chars_of("/wp-mail.php")) {
        EndpointKind::Mail
    } else if chars_eq(&p, &chars_of("/wp-trackback.php")) {
        EndpointKind::Trackback
    } else if chars_eq(&p, &chars_of("/wp-links-opml.php")) {
        EndpointKind::LinksOpml
    } else if chars_eq(&p, &chars_of("/wp-admin/admin-ajax.php")) {
        EndpointKind::AdminAjax
    } else if chars_eq(&p, &chars_of("/wp-admin/admin-post.php")) {
        EndpointKind::AdminPost
    } else if chars_eq(&p, &chars_of("/wp-admin/async-upload.php")) {
        EndpointKind::AsyncUpload
    } else {
        EndpointKind::Unknown
    }
}

/// `/` for an empty path; otherwise trimmed, given a leading `/`, and with
/// runs of `/` collapsed.
pub open spec fn normalized_path(path: Seq<char>) -> Seq<char> {
    if path.len() == 0 {
        seq!['/']
    } else {
        let t = trim(path);
        let prefixed = if t.len() > 0 && t[0] == '/' {
            t
        } else {
            seq!['/'] + t
        };
        collapse_slashes(prefixed)
    }
}

/// Normalizing a normalized path changes nothing.
pub proof fn lemma_normalize_idempotent(path: Seq<char>)
    ensures
        normalized_path(normalized_path(path)) == normalized_path(path),
{
    let n = normalized_path(path);
    if path.len() == 0 {
        assert(n =~= seq!['/']);
        lemma_trim_fixed(n);
        lemma_collapse_slashes(n);
    } else {
        let t = trim(path);
        lemma_trim_ends(path);
        let prefixed = if t.len() > 0 && t[0] == '/' {
            t
        } else {
            seq!['/'] + t
        };
        assert(prefixed.len() > 0 && prefixed[0] == '/');
        assert(!is_ws(prefixed.last())) by {
            if t.len() > 0 {
                assert(prefixed.last() == t.last());
            }
        }
        lemma_collapse_slashes(prefixed);
        assert(n == collapse_slashes(prefixed));
        lemma_trim_fixed(n);
        lemma_collapse_slashes(n);
    }
}

/// A normalized path starts with `/`, holds no `//`, and neither starts
/// nor ends with whitespace.
pub proof fn lemma_normalized_path_shape(path: Seq<char>)
    ensures
        normalized_path(path).len() > 0,
        normalized_path(path)[0] == '/',
        no_double_slash(normalized_path(path)),
        trim(normalized_path(path)) == normalized_path(path),
{
    let n = normalized_path(path);
    if path.len() == 0 {
        assert(n =~= seq!['/']);
        lemma_collapse_slashes(n);
    } else {
        let t = trim(path);
        lemma_trim_ends(path);
        let prefixed = if t.len() > 0 && t[0] == '/' {
            t
        } else {
            seq!['/'] + t
        };
        assert(prefixed.len() > 0 && prefixed[0] == '/');
        assert(!is_ws(prefixed.last())) by {
            if t.len() > 0 {
                assert(prefixed.last() == t.last());
            }
        }
        lemma_collapse_slashes(prefixed);
    }
    lemma_trim_fixed(n);
}

/// A path that starts with `/`, holds no `//` and no whitespace at either
/// end is already normalized.
proof fn lemma_normalized_fixed(p: Seq<char>)
    requires
        p.len() > 0,
        p[0] == '/',
        !is_ws(p.last()),
        no_double_slash(p),
    ensures
        normalized_path(p) == p,
{
    lemma_trim_fixed(p);
    lemma_collapse_slashes(p);
}

/// Each WordPress entry-point file `/{name}.php`, where `{name}` is a
/// kind's name, is detected as that kind; `/` and `/index.php` are the
/// front end.
pub proof fn lemma_entry_points_detected(k: EndpointKind)
    ensures
        k != EndpointKind::Unknown && k != EndpointKind::Frontend ==> kind_of(
            normalized_path("/"@ + kind_name(k) + ".php"@),
        ) == k,
        kind_of(normalized_path("/"@)) == EndpointKind::Frontend,
        kind_of(normalized_path("/index.php"@)) == EndpointKind::Frontend,
{
    reveal_strlit("/");
    reveal_strlit(".php");
    reveal_strlit("/index.php");
    reveal_strlit("wp-login");
    reveal_strlit("/wp-login.php");
    reveal_strlit("wp-signup");
    reveal_strlit("/wp-signup.php");
    reveal_strlit("wp-activate");
    reveal_strlit("/wp-activate.php");
    reveal_strlit("wp-comments-post");
    reveal_strlit("/wp-comments-post.php");
    reveal_strlit("wp-cron");
    reveal_strlit("/wp-cron.php");
    reveal_strlit("xmlrpc");
    reveal_strlit("/xmlrpc.php");
    reveal_strlit("wp-mail");
    reveal_strlit("/wp-mail.php");
    reveal_strlit("wp-trackback");
    reveal_strlit("/wp-trackback.php");
    reveal_strlit("wp-links-opml");
    reveal_strlit("/wp-links-opml.php");
    reveal_strlit("wp-admin/admin-ajax");
    reveal_strlit("/wp-admin/admin-ajax.php");
    reveal_strlit("wp-admin/admin-post");
    reveal_strlit("/wp-admin/admin-post.php");
    reveal_strlit("wp-admin/async-upload");
    reveal_strlit("/wp-admin/async-upload.php");
    assert("/"@.len() == 1);
    lemma_normalized_fixed("/"@);
    lemma_normalized_fixed("/index.php"@);
    if k != EndpointKind::Unknown && k != EndpointKind::Frontend {
        let p = "/"@ + kind_name(k) + ".php"@;
        match k {
            EndpointKind::Login => {
                assert(p =~= "/wp-login.php"@);
                assert("/index.php"@.len() != "/wp-login.php"@.len());
                assert("/"@.len() != "/wp-login.php"@.len());
                assert(kind_of(p) == k);
            },
            EndpointKind::Signup => {
                assert(p =~= "/wp-signup.php"@);
                assert("/index.php"@.len() != "/wp-signup.php"@.len());
                assert("/"@.len() != "/wp-signup.php"@.len());
                assert("/wp-login.php"@.len() != "/wp-signup.php"@.len());
                assert(kind_of(p) == k);
            },
            EndpointKind::Activate => {
                assert(p =~= "/wp-activate.php"@);
                assert("/index.php"@.len() != "/wp-activate.php"@.len());
                assert("/"@.len() != "/wp-activate.php"@.len());
                assert("/wp-login.php"@.len() != "/wp-activate.php"@.len());
                assert("/wp-signup.php"@.len() != "/wp-activate.php"@.len());
                assert(kind_of(p) == k);
            },
            EndpointKind::CommentsPost => {
                assert(p =~= "/wp-comments-post.php"@);
                assert("/index.php"@.len() != "/wp-comments-post.php"@.len());
                assert("/"@.len() != "/wp-comments-post.php"@.len());
                assert("/wp-login.php"@.len() != "/wp-comments-post.php"@.len());
                assert("/wp-signup.php"@.len() != "/wp-comments-post.php"@.len());
                assert("/wp-activate.php"@.len() != "/wp-comments-post.php"@.len());
                assert(kind_of(p) == k);
            },
            EndpointKind::Cron => {
                assert(p =~= "/wp-cron.php"@);
                assert("/index.php"@.len() != "/wp-cron.php"@.len());
                assert("/"@.len() != "/wp-cron.php"@.len());
                assert("/wp-login.php"@.len() != "/wp-cron.php"@.len());
                assert("/wp-signup.php"@.len() != "/wp-cron.php"@.len());
                assert("/wp-activate.php"@.len() != "/wp-cron.php"@.len());
                assert("/wp-comments-post.php"@.len() != "/wp-cron.php"@.len());
                assert(kind_of(p) == k);
            },
            EndpointKind::XmlRpc => {
                assert(p =~= "/xmlrpc.php"@);
                assert("/index.php"@.len() != "/xmlrpc.php"@.len());
                assert("/"@.len() != "/xmlrpc.php"@.len());
                assert("/wp-login.php"@.len() != "/xmlrpc.php"@.len());
                assert("/wp-signup.php"@.len() != "/xmlrpc.php"@.len());
                assert("/wp-activate.php"@.len() != "/xmlrpc.php"@.len());
                assert("/wp-comments-post.php"@.len() != "/xmlrpc.php"@.len());
                assert("/wp-cron.php"@.len() != "/xmlrpc.php"@.len());
                assert(kind_of(p) == k);
            },
            EndpointKind::Mail => {
                assert(p =~= "/wp-mail.php"@);
                assert("/index.php"@.len() != "/wp-mail.php"@.len());
                assert("/"@.len() != "/wp-mail.php"@.len());
                assert("/wp-login.php"@.len() != "/wp-mail.php"@.len());
                assert("/wp-signup.php"@.len() != "/wp-mail.php"@.len());
                assert("/wp-activate.php"@.len() != "/wp-mail.php"@.len());
                assert("/wp-comments-post.php"@.len() != "/wp-mail.php"@.len());
                assert("/wp-cron.php"@[4] != "/wp-mail.php"@[4]);
                assert("/xmlrpc.php"@.len() != "/wp-mail.php"@.len());
                assert(kind_of(p) == k);
            },
            EndpointKind::Trackback => {
                assert(p =~= "/wp-trackback.php"@);
                assert("/index.php"@.len() != "/wp-trackback.php"@.len());
                assert("/"@.len() != "/wp-trackback.php"@.len());
                assert("/wp-login.php"@.len() != "/wp-trackback.php"@.len());
                assert("/wp-signup.php"@.len() != "/wp-trackback.php"@.len());
                assert("/wp-activate.php"@.len() != "/wp-trackback.php"@.len());
                assert("/wp-comments-post.php"@.len() != "/wp-trackback.php"@.len());
                assert("/wp-cron.php"@.len() != "/wp-trackback.php"@.len());
                assert("/xmlrpc.php"@.len() != "/wp-trackback.php"@.len());
                assert("/wp-mail.php"@.len() != "/wp-trackback.php"@.len());
                assert(kind_of(p) == k);
            },
            EndpointKind::LinksOpml => {
                assert(p =~= "/wp-links-opml.php"@);
                assert("/index.php"@.len() != "/wp-links-opml.php"@.len());
                assert("/"@.len() != "/wp-links-opml.php"@.len());
                assert("/wp-login.php"@.len() != "/wp-links-opml.php"@.len());
                assert("/wp-signup.php"@.len() != "/wp-links-opml.php"@.len());
                assert("/wp-activate.php"@.len() != "/wp-links-opml.php"@.len());
                assert("/wp-comments-post.php"@.len() != "/wp-links-opml.php"@.len());
                assert("/wp-cron.php"@.len() != "/wp-links-opml.php"@.len());
                assert("/xmlrpc.php"@.len() != "/wp-links-opml.php"@.len());
                assert("/wp-mail.php"@.len() != "/wp-links-opml.php"@.len());
                assert("/wp-trackback.php"@.len() != "/wp-links-opml.php"@.len());
                assert(kind_of(p) == k);
            },
            EndpointKind::AdminAjax => {
                assert(p =~= "/wp-admin/admin-ajax.php"@);
                assert("/index.php"@.len() != "/wp-admin/admin-ajax.php"@.len());
                assert("/"@.len() != "/wp-admin/admin-ajax.php"@.len());
                assert("/wp-login.php"@.len() != "/wp-admin/admin-ajax.php"@.len());
                assert("/wp-signup.php"@.len() != "/wp-admin/admin-ajax.php"@.len());
                assert("/wp-activate.php"@.len() != "/wp-admin/admin-ajax.php"@.len());
                assert("/wp-comments-post.php"@.len() != "/wp-admin/admin-ajax.php"@.len());
                assert("/wp-cron.php"@.len() != "/wp-admin/admin-ajax.php"@.len());
                assert("/xmlrpc.php"@.len() != "/wp-admin/admin-ajax.php"@.len());
                assert("/wp-mail.php"@.len() != "/wp-admin/admin-ajax.php"@.len());
                assert("/wp-trackback.php"@.len() != "/wp-admin/admin-ajax.php"@.len());
                assert("/wp-links-opml.php"@.len() != "/wp-admin/admin-ajax.php"@.len());
                assert(kind_of(p) == k);
            },
            EndpointKind::AdminPost => {
                assert(p =~= "/wp-admin/admin-post.php"@);
                assert("/index.php"@.len() != "/wp-admin/admin-post.php"@.len());
                assert("/"@.len() != "/wp-admin/admin-post.php"@.len());
                assert("/wp-login.php"@.len() != "/wp-admin/admin-post.php"@.len());
                assert("/wp-signup.php"@.len() != "/wp-admin/admin-post.php"@.len());
                assert("/wp-activate.php"@.len() != "/wp-admin/admin-post.php"@.len());
                assert("/wp-comments-post.php"@.len() != "/wp-admin/admin-post.php"@.len());
                assert("/wp-cron.php"@.len() != "/wp-admin/admin-post.php"@.len());
                assert("/xmlrpc.php"@.len() != "/wp-admin/admin-post.php"@.len());
                assert("/wp-mail.php"@.len() != "/wp-admin/admin-post.php"@.len());
                assert("/wp-trackback.php"@.len() != "/wp-admin/admin-post.php"@.len());
                assert("/wp-links-opml.php"@.len() != "/wp-admin/admin-post.php"@.len());
                assert("/wp-admin/admin-ajax.php"@[16] != "/wp-admin/admin-post.php"@[16]);
                assert(kind_of(p) == k);
            },
            EndpointKind::AsyncUpload => {
                assert(p =~= "/wp-admin/async-upload.php"@);
                assert("/index.php"@.len() != "/wp-admin/async-upload.php"@.len());
                assert("/"@.len() != "/wp-admin/async-upload.php"@.len());
                assert("/wp-login.php"@.len() != "/wp-admin/async-upload.php"@.len());
                assert("/wp-signup.php"@.len() != "/wp-admin/async-upload.php"@.len());
                assert("/wp-activate.php"@.len() != "/wp-admin/async-upload.php"@.len());
                assert("/wp-comments-post.php"@.len() != "/wp-admin/async-upload.php"@.len());
                assert("/wp-cron.php"@.len() != "/wp-admin/async-upload.php"@.len());
                assert("/xmlrpc.php"@.len() != "/wp-admin/async-upload.php"@.len());
                assert("/wp-mail.php"@.len() != "/wp-admin/async-upload.php"@.len());
                assert("/wp-trackback.php"@.len() != "/wp-admin/async-upload.php"@.len());
                assert("/wp-links-opml.php"@.len() != "/wp-admin/async-upload.php"@.len());
                assert("/wp-admin/admin-ajax.php"@.len() != "/wp-admin/async-upload.php"@.len());
                assert("/wp-admin/admin-post.php"@.len() != "/wp-admin/async-upload.php"@.len());
                assert(kind_of(p) == k);
            },
            _ => {},
        }
        lemma_normalized_fixed(p);
    }
}

pub fn normalize_path(path: &str) -> (r: String)
    ensures
        r@ == normalized_path(path@),
{
    let p = chars_of(path);
    if p.len() == 0 {
        let mut v: Vec<char> = Vec::new();
        v.push('/');
        assert(v@ =~= seq!['/']);
        return string_of(&v);
    }
    let t = trim_chars(&p);
    let prefixed = if t.len() > 0 && t[0] == '/' {
        t
    } else {
        let mut v: Vec<char> = Vec::new();
        v.push('/');
        append_chars(&mut v, &t);
        assert(v@ =~= seq!['/'] + t@);
        v
    };
    let c = collapse_slashes_exec(&prefixed);
    string_of(&c)
}

// ------------------------------------------------------------------
// XML-RPC
// ------------------------------------------------------------------

#[derive(Debug, Clone, Copy, PartialEq, Eq, Structural)]
pub enum XmlRpcPermission {
    Public,
    Authenticated,
}

#[derive(Debug, Clone)]
pub struct XmlRpcMethod {
    pub name: String,
    pub permission: XmlRpcPermission,
}

#[derive(Debug, Clone)]
pub struct XmlRpcDispatchResult {
    pub success: bool,
    pub fault_code: Option<i32>,
    pub message: String,
    pub method_name: String,
}

#[derive(Debug, Clone)]
pub struct XmlRpcRegistry {
    methods: Vec<XmlRpcMethod>,
}

/// Index of the first registered method named `name`.
pub open spec fn first_method(methods: Seq<XmlRpcMethod>, name: Seq<char>) -> Option<int> {
    if exists|i: int| 0 <= i < methods.len() && methods[i].name@ == name {
        Some(
            choose|i: int|
                0 <= i < methods.len() && methods[i].name@ == name && forall|j: int|
                    0 <= j < i ==> methods[j].name@ != name,
        )
    } else {
        None
    }
}

impl XmlRpcRegistry {
    /// The registered methods, in registration order.
    pub closed spec fn registered(&self) -> Seq<XmlRpcMethod> {
        self.methods@
    }

    pub fn new() -> (r: Self)
        ensures
            r.registered() == Seq::<XmlRpcMethod>::empty(),
    {
        XmlRpcRegistry { methods: Vec::new() }
    }

    pub fn register(&mut self, name: &str, permission: XmlRpcPermission)
        ensures
            final(self).registered().len() == old(self).registered().len() + 1,
            final(self).registered().drop_last() == old(self).registered(),
            final(self).registered().last().name@ == name@,
            final(self).registered().last().permission == permission,
    {
        self.methods.push(XmlRpcMethod { name: string_of(&chars_of(name)), permission });
        assert(self.methods@.drop_last() =~= old(self).methods@);
    }

    pub fn methods(&self) -> (r: &[XmlRpcMethod])
        ensures
            r@ == self.registered(),
    {
        self.methods.as_slice()
    }

    /// Looks up the first method with this name: unknown methods fault with
    /// -32601, authenticated methods called anonymously fault with 403,
    /// anything else succeeds.
    pub fn dispatch(&self, method_name: &str, authenticated: bool) -> (r: XmlRpcDispatchResult)
        ensures
            r.method_name@ == method_name@,
            match first_method(self.registered(), method_name@) {
                None => !r.success && r.fault_code == Some(-32601i32) && r.message@
                    == "Method not found"@,
                Some(i) => if self.registered()[i].permission == XmlRpcPermission::Authenticated
                    && !authenticated {
                    !r.success && r.fault_code == Some(403i32) && r.message@
                        == "Authentication required"@
                } else {
                    r.success && r.fault_code is None && r.message@ == "Method executed"@
                },
            },
    {
        let name = chars_of(method_name);
        let mut k: usize = 0;
        while k < self.methods.len()
            invariant
                k <= self.methods@.len(),
                name@ == method_name@,
                forall|j: int| 0 <= j < k ==> self.methods@[j].name@ != method_name@,
            decreases self.methods@.len() - k,
        {
            let candidate = chars_of(self.methods[k].name.as_str());
            if chars_eq(&candidate, &name) {
                assert(first_method(self.methods@, method_name@) == Some(k as int)) by {
                    let i = choose|i: int|
                        0 <= i < self.methods@.len() && self.methods@[i].name@ == method_name@
                            && forall|j: int| 0 <= j < i ==> self.methods@[j].name@ != method_name@;
                    if i < k {
                    } else if i > k {
                    }
                }
                if self.methods[k].permission == XmlRpcPermission::Authenticated && !authenticated {
                    return XmlRpcDispatchResult {
                        success: false,
                        fault_code: Some(403),
                        message: string_of(&chars_of("Authentication required")),
                        method_name: string_of(&name),
                    };
                }
                return XmlRpcDispatchResult {
                    success: true,
                    fault_code: None,
                    message: string_of(&chars_of("Method executed")),
                    method_name: string_of(&name),
                };
            }
            k += 1;
        }
        XmlRpcDispatchResult {
            success: false,
            fault_code: Some(-32601),
            message: string_of(&chars_of("Method not found")),
            method_name: string_of(&name),
        }
    }
}

pub open spec fn core_xmlrpc_methods() -> Seq<(Seq<char>, XmlRpcPermission)> {
    seq![
        ("system.listMethods"@, XmlRpcPermission::Public),
        ("system.multicall"@, XmlRpcPermission::Public),
        ("demo.sayHello"@, XmlRpcPermission::Public),
        ("pingback.ping"@, XmlRpcPermission::Public),
        ("wp.getUsersBlogs"@, XmlRpcPermission::Authenticated),
        ("metaWeblog.getRecentPosts"@, XmlRpcPermission::Authenticated),
        ("wp.getMediaLibrary"@, XmlRpcPermission::Authenticated),
        ("wp.newPost"@, XmlRpcPermission::Authenticated),
        ("wp.editPost"@, XmlRpcPermission::Authenticated),
        ("wp.deletePost"@, XmlRpcPermission::Authenticated),
    ]
}

/// The core WordPress XML-RPC methods with their permissions.
pub fn core_xmlrpc_registry() -> (r: XmlRpcRegistry)
    ensures
        r.registered().len() == core_xmlrpc_methods().len(),
        forall|i: int|
            0 <= i < core_xmlrpc_methods().len() ==> (#[trigger] r.registered()[i]).name@
                == core_xmlrpc_methods()[i].0 && r.registered()[i].permission
                == core_xmlrpc_methods()[i].1,
{
    let mut r = XmlRpcRegistry::new();
    r.register("system.listMethods", XmlRpcPermission::Public);
    r.register("system.multicall", XmlRpcPermission::Public);
    r.register("demo.sayHello", XmlRpcPermission::Public);
    r.register("pingback.ping", XmlRpcPermission::Public);
    r.register("wp.getUsersBlogs", XmlRpcPermission::Authenticated);
    r.register("metaWeblog.getRecentPosts", XmlRpcPermission::Authenticated);
    r.register("wp.getMediaLibrary", XmlRpcPermission::Authenticated);
    r.register("wp.newPost", XmlRpcPermission::Authenticated);
    r.register("wp.editPost", XmlRpcPermission::Authenticated);
    r.register("wp.deletePost", XmlRpcPermission::Authenticated);
    assert forall|i: int| 0 <= i < core_xmlrpc_methods().len() implies (#[trigger] r.registered()[i]).name@
        == core_xmlrpc_methods()[i].0 && r.registered()[i].permission == core_xmlrpc_methods()[i].1 by {
    }
    r
}

/// The trimmed text between the first `<methodName>` and the next
/// `</methodName>`, when both exist and the text is not blank.
pub open spec fn xmlrpc_method_name(payload: Seq<char>) -> Option<Seq<char>> {
    let open = "<methodName>"@;
    let close = "</methodName>"@;
    match first_occurrence(payload, open, 0) {
        None => None,
        Some(i) => {
            let start = i + open.len();
            match first_occurrence(payload, close, start) {
                None => None,
                Some(e) => {
                    let name = trim(payload.subrange(start, e));
                    if name.len() > 0 {
                        Some(name)
                    } else {
                        None
                    }
                },
            }
        },
    }
}

pub fn parse_xmlrpc_method_name(payload: &str) -> (r: Option<String>)
    ensures
        match r {
            Some(name) => xmlrpc_method_name(payload@) == Some(name@),
            None => xmlrpc_method_name(payload@) is None,
        },
{
    let p = chars_of(payload);
    let open = chars_of("<methodName>");
    let close = chars_of("</methodName>");
    let i = match find(&p, &open) {
        Some(i) => i,
        None => {
            return None;
        },
    };
    let plen = p.len();
    assert(i + open@.len() <= plen);
    let start = i + open.len();
    let e = match find_from(&p, &close, start) {
        Some(e) => e,
        None => {
            return None;
        },
    };
    let inner = copy_range(&p, start, e);
    let name = trim_chars(&inner);
    if name.len() > 0 {
        Some(string_of(&name))
    } else {
        None
    }
}

pub open spec fn xmlrpc_success_text(method_name: Seq<char>) -> Seq<char> {
    "<?xml version=\"1.0\"?><methodResponse><params><param><value><string>"@ + method_name
        + "</string></value></param></params></methodResponse>"@
}

pub open spec fn xmlrpc_fault_text(code: int, message: Seq<char>) -> Seq<char> {
    "<?xml version=\"1.0\"?><methodResponse><fault><value><struct><member><name>faultCode</name><value><int>"@
        + int_decimal(code)
        + "</int></value></member><member><name>faultString</name><value><string>"@ + message
        + "</string></value></member></struct></value></fault></methodResponse>"@
}

pub fn xmlrpc_success_response(method_name: &str) -> (r: String)
    ensures
        r@ == xmlrpc_success_text(method_name@),
{
    let mut v = chars_of("<?xml version=\"1.0\"?><methodResponse><params><param><value><string>");
    append_str(&mut v, method_name);
    append_str(&mut v, "</string></value></param></params></methodResponse>");
    string_of(&v)
}

pub fn xmlrpc_fault_response(code: i32, message: &str) -> (r: String)
    ensures
        r@ == xmlrpc_fault_text(code as int, message@),
{
    let mut v = chars_of(
        "<?xml version=\"1.0\"?><methodResponse><fault><value><struct><member><name>faultCode</name><value><int>",
    );
    let c = i64_to_chars(code as i64);
    append_chars(&mut v, &c);
    append_str(&mut v, "</int></value></member><member><name>faultString</name><value><string>");
    append_str(&mut v, message);
    append_str(&mut v, "</string></value></member></struct></value></fault></methodResponse>");
    string_of(&v)
}

} // verus!
