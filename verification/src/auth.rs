//! Who is calling: the authenticated context, its roles and the permissions
//! that they grant.
use vstd::prelude::*;
use crate::common::{scope_error, AtlasScope};
use crate::config::{AuthConfig, PaginationConfig};
use crate::text::{
    starts_with, starts_with_lit, string_of_range, trim_chars,
    chars_of, eq_ignore_case, ieq, lemma_strings_view_push, owned, split_on, split_vec,
    str_eq, string_of, strings_view, trim, trim_vec,
};

verus! {

/// An error answered to an API caller, with the HTTP meaning of its variant.
#[derive(Debug, Clone, PartialEq, Eq)]
pub enum ApiError {
    BadRequest(String),
    Unauthorized(String),
    Forbidden(String),
    NotFound(String),
    Internal(String),
}

impl ApiError {
    pub fn forbidden(msg: &str) -> (e: ApiError)
        ensures
            e matches ApiError::Forbidden(m) && m@ == msg@,
    {
        ApiError::Forbidden(owned(msg))
    }

    pub fn unauthorized(msg: &str) -> (e: ApiError)
        ensures
            e matches ApiError::Unauthorized(m) && m@ == msg@,
    {
        ApiError::Unauthorized(owned(msg))
    }

    pub fn bad_request(msg: String) -> (e: ApiError)
        ensures
            e matches ApiError::BadRequest(m) && m@ == msg@,
    {
        ApiError::BadRequest(msg)
    }

    /// The HTTP status code of the error.
    pub fn status_code(&self) -> (c: u16)
        ensures
            c == match *self {
                ApiError::BadRequest(_) => 400u16,
                ApiError::Unauthorized(_) => 401u16,
                ApiError::Forbidden(_) => 403u16,
                ApiError::NotFound(_) => 404u16,
                ApiError::Internal(_) => 500u16,
            },
    {
        match self {
            ApiError::BadRequest(_) => 400,
            ApiError::Unauthorized(_) => 401,
            ApiError::Forbidden(_) => 403,
            ApiError::NotFound(_) => 404,
            ApiError::Internal(_) => 500,
        }
    }
}

/// The caller of an API request.
#[derive(Debug, Clone)]
pub struct AuthContext {
    pub subject: String,
    pub tenant_id: String,
    pub project_id: String,
    pub roles: Vec<String>,
}

/// Some role equals `name`, ignoring ASCII case.
pub open spec fn has_role(roles: Seq<String>, name: Seq<char>) -> bool {
    exists|i: int| 0 <= i < roles.len() && ieq(#[trigger] roles[i]@, name)
}

pub open spec fn spec_is_admin(roles: Seq<String>) -> bool {
    has_role(roles, "admin"@)
}

/// Writers are admins and holders of `writer` or `write`.
pub open spec fn spec_can_write(roles: Seq<String>) -> bool {
    spec_is_admin(roles) || has_role(roles, "writer"@) || has_role(roles, "write"@)
}

/// Readers are writers and holders of `reader` or `read`.
pub open spec fn spec_can_read(roles: Seq<String>) -> bool {
    spec_can_write(roles) || has_role(roles, "reader"@) || has_role(roles, "read"@)
}

fn any_role(roles: &Vec<String>, name: &str) -> (r: bool)
    ensures
        r == has_role(roles@, name@),
{
    let mut i: usize = 0;
    while i < roles.len()
        invariant
            i <= roles.len(),
            forall|j: int| 0 <= j < i ==> !ieq(#[trigger] roles@[j]@, name@),
        decreases roles.len() - i,
    {
        if eq_ignore_case(roles[i].as_str(), name) {
            assert(ieq(roles@[i as int]@, name@));
            return true;
        }
        i = i + 1;
    }
    false
}

/// The roles named in a comma-separated header: each piece trimmed, empty
/// pieces dropped.
pub open spec fn listed_roles(parts: Seq<Seq<char>>) -> Seq<Seq<char>>
    decreases parts.len(),
{
    if parts.len() == 0 {
        Seq::empty()
    } else {
        let prev = listed_roles(parts.drop_last());
        if trim(parts.last()).len() > 0 {
            prev.push(trim(parts.last()))
        } else {
            prev
        }
    }
}

/// The roles that a request without a bearer token carries: those listed in
/// its roles header, or `admin` where it lists none.
pub open spec fn header_roles_spec(raw: Option<Seq<char>>) -> Seq<Seq<char>> {
    match raw {
        Some(r) => {
            let listed = listed_roles(split_on(r, ','));
            if listed.len() > 0 {
                listed
            } else {
                seq!["admin"@]
            }
        },
        None => seq!["admin"@],
    }
}

/// Parses the roles header of a request without a bearer token.
pub fn header_roles(raw: Option<&str>) -> (r: Vec<String>)
    ensures
        strings_view(r@) == header_roles_spec(
            match raw {
                Some(s) => Some(s@),
                None => None,
            },
        ),
{
    let mut roles: Vec<String> = Vec::new();
    match raw {
        Some(text) => {
            let chars = chars_of(text);
            let parts = split_vec(&chars, ',');
            let ghost ps = split_on(chars@, ',');
            let mut i: usize = 0;
            assert(strings_view(roles@) =~= listed_roles(ps.take(0)));
            while i < parts.len()
                invariant
                    i <= parts.len() == ps.len(),
                    ps == split_on(chars@, ','),
                    forall|k: int| 0 <= k < parts@.len() ==> #[trigger] parts@[k]@ == ps[k],
                    strings_view(roles@) == listed_roles(ps.take(i as int)),
                decreases parts.len() - i,
            {
                let t = trim_vec(&parts[i]);
                proof {
                    assert(ps.take(i + 1).drop_last() =~= ps.take(i as int));
                    assert(ps.take(i + 1).last() == ps[i as int]);
                }
                if t.len() > 0 {
                    let s = string_of(&t);
                    proof {
                        lemma_strings_view_push(roles@, s);
                    }
                    roles.push(s);
                }
                i = i + 1;
            }
            assert(ps.take(parts.len() as int) =~= ps);
            if roles.len() > 0 {
                return roles;
            }
        },
        None => {},
    }
    let mut admin: Vec<String> = Vec::new();
    admin.push(owned("admin"));
    assert(strings_view(admin@) =~= seq!["admin"@]);
    admin
}

impl AuthContext {
    /// The context of local development: subject `local-dev`, scope
    /// `default`/`default`, role `admin`.
    pub fn default() -> (c: AuthContext)
        ensures
            c.subject@ == "local-dev"@,
            c.tenant_id@ == "default"@,
            c.project_id@ == "default"@,
            strings_view(c.roles@) == seq!["admin"@],
    {
        let mut roles: Vec<String> = Vec::new();
        roles.push(owned("admin"));
        assert(strings_view(roles@) =~= seq!["admin"@]);
        AuthContext {
            subject: owned("local-dev"),
            tenant_id: owned("default"),
            project_id: owned("default"),
            roles,
        }
    }

    pub fn is_admin(&self) -> (r: bool)
        ensures
            r == spec_is_admin(self.roles@),
    {
        any_role(&self.roles, "admin")
    }

    pub fn can_write(&self) -> (r: bool)
        ensures
            r == spec_can_write(self.roles@),
    {
        self.is_admin() || any_role(&self.roles, "writer") || any_role(&self.roles, "write")
    }

    pub fn can_read(&self) -> (r: bool)
        ensures
            r == spec_can_read(self.roles@),
    {
        self.can_write() || any_role(&self.roles, "reader") || any_role(&self.roles, "read")
    }

    pub fn require_admin(&self) -> (r: Result<(), ApiError>)
        ensures
            r is Ok <==> spec_is_admin(self.roles@),
            r matches Err(e) ==> e matches ApiError::Forbidden(m) && m@ == "requiere rol admin"@,
    {
        if self.is_admin() {
            Ok(())
        } else {
            Err(ApiError::forbidden("requiere rol admin"))
        }
    }

    pub fn require_write(&self) -> (r: Result<(), ApiError>)
        ensures
            r is Ok <==> spec_can_write(self.roles@),
            r matches Err(e) ==> e matches ApiError::Forbidden(m) && m@
                == "requiere permisos de escritura"@,
    {
        if self.can_write() {
            Ok(())
        } else {
            Err(ApiError::forbidden("requiere permisos de escritura"))
        }
    }

    pub fn require_read(&self) -> (r: Result<(), ApiError>)
        ensures
            r is Ok <==> spec_can_read(self.roles@),
            r matches Err(e) ==> e matches ApiError::Forbidden(m) && m@
                == "requiere permisos de lectura"@,
    {
        if self.can_read() {
            Ok(())
        } else {
            Err(ApiError::forbidden("requiere permisos de lectura"))
        }
    }

    pub fn scope(&self) -> (s: AtlasScope)
        ensures
            s.tenant_id@ == self.tenant_id@,
            s.project_id@ == self.project_id@,
    {
        AtlasScope::new(self.tenant_id.clone(), self.project_id.clone())
    }

    /// The context of a request without a bearer token, from its
    /// `x-tenant-id`, `x-project-id`, `x-subject` and `x-roles` headers
    /// (`None` where a header is absent or unreadable).
    pub fn from_header_values(
        tenant_id: Option<&str>,
        project_id: Option<&str>,
        subject: Option<&str>,
        roles: Option<&str>,
    ) -> (r: Result<AuthContext, ApiError>)
        ensures
            ({
                let t = match tenant_id {
                    Some(s) => s@,
                    None => "default"@,
                };
                let p = match project_id {
                    Some(s) => s@,
                    None => "default"@,
                };
                match r {
                    Ok(c) => scope_error(t, p) is None && c.tenant_id@ == t && c.project_id@ == p
                        && c.subject@ == (match subject {
                        Some(s) => s@,
                        None => "local-dev"@,
                    }) && strings_view(c.roles@) == header_roles_spec(
                        match roles {
                            Some(s) => Some(s@),
                            None => None,
                        },
                    ),
                    Err(e) => scope_error(t, p) matches Some(m) && e matches ApiError::BadRequest(
                        em,
                    ) && em@ == m,
                }
            }),
    {
        let tenant_id = match tenant_id {
            Some(s) => owned(s),
            None => owned("default"),
        };
        let project_id = match project_id {
            Some(s) => owned(s),
            None => owned("default"),
        };
        let subject = match subject {
            Some(s) => owned(s),
            None => owned("local-dev"),
        };
        let roles = header_roles(roles);
        let auth = AuthContext { subject, tenant_id, project_id, roles };
        match auth.scope().validate() {
            Ok(()) => Ok(auth),
            Err(m) => Err(ApiError::bad_request(m)),
        }
    }

    /// The context of a request whose bearer token decoded to these claims;
    /// a token without roles reads.
    pub fn from_token_claims(
        subject: String,
        tenant_id: String,
        project_id: String,
        roles: Vec<String>,
    ) -> (r: Result<AuthContext, ApiError>)
        ensures
            match r {
                Ok(c) => scope_error(tenant_id@, project_id@) is None && c.subject@ == subject@
                    && c.tenant_id@ == tenant_id@ && c.project_id@ == project_id@ && (if roles@.len()
                    == 0 {
                    strings_view(c.roles@) == seq!["reader"@]
                } else {
                    c.roles@ == roles@
                }),
                Err(e) => scope_error(tenant_id@, project_id@) matches Some(m)
                    && e matches ApiError::BadRequest(em) && em@ == m,
            },
    {
        let roles = if roles.len() == 0 {
            let mut v: Vec<String> = Vec::new();
            v.push(owned("reader"));
            assert(strings_view(v@) =~= seq!["reader"@]);
            v
        } else {
            roles
        };
        let auth = AuthContext { subject, tenant_id, project_id, roles };
        match auth.scope().validate() {
            Ok(()) => Ok(auth),
            Err(m) => Err(ApiError::bad_request(m)),
        }
    }
}

/// The token of an `Authorization` header: what follows `Bearer ` with the
/// whitespace around it trimmed. A header of another scheme is refused as
/// unauthorized.
pub fn bearer_token(header: &str) -> (r: Result<String, ApiError>)
    ensures
        match r {
            Ok(t) => starts_with(header@, "Bearer "@) && t@ == trim(header@.subrange(7, header@.len() as int)),
            Err(e) => !starts_with(header@, "Bearer "@) && (e matches ApiError::Unauthorized(m)
                && m@ == "authorization debe usar esquema Bearer"@),
        },
{
    let cs = chars_of(header);
    proof {
        reveal_strlit("Bearer ");
    }
    if starts_with_lit(&cs, "Bearer ") {
        let rest = string_of_range(&cs, 7, cs.len());
        let t = trim_chars(rest.as_str());
        Ok(string_of(&t))
    } else {
        Err(ApiError::unauthorized("authorization debe usar esquema Bearer"))
    }
}

/// The page size of a listing: the requested one, else the configured
/// default, never above the configured maximum.
pub fn default_limit(pagination: &PaginationConfig, requested: Option<usize>) -> (r: usize)
    ensures
        r == ({
            let want = match requested {
                Some(n) => n,
                None => pagination.default_limit,
            };
            if want < pagination.max_limit {
                want
            } else {
                pagination.max_limit
            }
        }),
{
    let want = match requested {
        Some(n) => n,
        None => pagination.default_limit,
    };
    if want < pagination.max_limit {
        want
    } else {
        pagination.max_limit
    }
}

/// Accepts exactly the configured bootstrap token.
pub fn validate_bootstrap_token(auth: &AuthConfig, token: &str) -> (r: Result<(), ApiError>)
    ensures
        r is Ok <==> token@ == auth.bootstrap_token@,
        r matches Err(e) ==> e matches ApiError::Forbidden(m) && m@ == "bootstrap token inválido"@,
{
    if str_eq(token, auth.bootstrap_token.as_str()) {
        Ok(())
    } else {
        Err(ApiError::forbidden("bootstrap token inválido"))
    }
}

} // verus!

verus! {

/// Rights are nested: an admin may write, and a writer may read.
pub proof fn law_rights_are_nested(roles: Seq<String>)
    ensures
        spec_is_admin(roles) ==> spec_can_write(roles),
        spec_can_write(roles) ==> spec_can_read(roles),
{
}

proof fn lemma_has_role_grows(roles: Seq<String>, extra: Seq<String>, name: Seq<char>)
    ensures
        has_role(roles, name) ==> has_role(roles + extra, name),
{
    if has_role(roles, name) {
        let i = choose|i: int| 0 <= i < roles.len() && ieq(#[trigger] roles[i]@, name);
        assert((roles + extra)[i] == roles[i]);
    }
}

/// Granting more roles takes no right away.
pub proof fn law_more_roles_keep_rights(roles: Seq<String>, extra: Seq<String>)
    ensures
        spec_is_admin(roles) ==> spec_is_admin(roles + extra),
        spec_can_write(roles) ==> spec_can_write(roles + extra),
        spec_can_read(roles) ==> spec_can_read(roles + extra),
{
    lemma_has_role_grows(roles, extra, "admin"@);
    lemma_has_role_grows(roles, extra, "writer"@);
    lemma_has_role_grows(roles, extra, "write"@);
    lemma_has_role_grows(roles, extra, "reader"@);
    lemma_has_role_grows(roles, extra, "read"@);
}

} // verus!
