//! The request dispatcher: the routing table over method and path, the
//! response shaping for every outcome, and the top-level handler that maps
//! every uniform error to one internal-failure response.

use vstd::prelude::*;
use vstd::string::StringExecFns;
use crate::codec::{decode_user, enc_user, enc_users, encode_user, encode_users, parse_user_spec,
    views_of};
use crate::entities::User;
use crate::errors::AppError;
use crate::query::{get_param_value, param_lookup_spec};
use crate::store::{has_id, rows_with_name, UserTable};
use crate::strutil::str_eq;

verus! {

broadcast use vstd::string::group_string_axioms;

/// The request methods the routing table distinguishes.
#[derive(Debug, Clone, Copy, PartialEq, Eq, Structural)]
pub enum Method {
    Get,
    Post,
    Other,
}

/// What the routing table decides for one request line.
#[derive(Debug)]
pub enum Route {
    Health,
    UserById(String),
    UsersByName(String),
    AddUser,
    NotFound,
}

/// An HTTP response: a status code and a body.
#[derive(Debug)]
pub struct HttpResponse {
    pub status: u16,
    pub body: String,
}

/// The optional query string, as a model value.
pub open spec fn opt_view(q: Option<&str>) -> Option<Seq<char>> {
    match q {
        None => None,
        Some(s) => Some(s@),
    }
}

/// Decides the handler for one request line, extracting the required
/// query parameter where the route needs one.
pub fn route(method: Method, path: &str, query: Option<&str>) -> (r: Result<Route, AppError>)
    ensures
        method == Method::Get && path@ == "/health"@ ==> (r matches Ok(rt) && rt is Health),
        method == Method::Get && path@ == "/users/by-id"@ ==> (match param_lookup_spec(
            opt_view(query),
            "id"@,
        ) {
            Ok(v) => r matches Ok(rt) && rt matches Route::UserById(s) && s@ == v,
            Err(m) => r matches Err(e) && e.message@ == m,
        }),
        method == Method::Get && path@ == "/users/by-name"@ ==> (match param_lookup_spec(
            opt_view(query),
            "name"@,
        ) {
            Ok(v) => r matches Ok(rt) && rt matches Route::UsersByName(s) && s@ == v,
            Err(m) => r matches Err(e) && e.message@ == m,
        }),
        method == Method::Post && path@ == "/users"@ ==> (r matches Ok(rt) && rt is AddUser),
        !(method == Method::Get && (path@ == "/health"@ || path@ == "/users/by-id"@ || path@
            == "/users/by-name"@)) && !(method == Method::Post && path@ == "/users"@) ==> (r
            matches Ok(rt) && rt is NotFound),
{
    proof {
        reveal_strlit("/health");
        reveal_strlit("/users/by-id");
        reveal_strlit("/users/by-name");
        reveal_strlit("/users");
        assert("/health"@.len() == 7);
        assert("/users/by-id"@.len() == 12);
        assert("/users/by-name"@.len() == 14);
        assert("/users"@.len() == 6);
    }
    match method {
        Method::Get => {
            if str_eq(path, "/health") {
                Ok(Route::Health)
            } else if str_eq(path, "/users/by-id") {
                match get_param_value(query, "id") {
                    Ok(v) => Ok(Route::UserById(v)),
                    Err(e) => Err(e),
                }
            } else if str_eq(path, "/users/by-name") {
                match get_param_value(query, "name") {
                    Ok(v) => Ok(Route::UsersByName(v)),
                    Err(e) => Err(e),
                }
            } else {
                Ok(Route::NotFound)
            }
        },
        Method::Post => {
            if str_eq(path, "/users") {
                Ok(Route::AddUser)
            } else {
                Ok(Route::NotFound)
            }
        },
        Method::Other => Ok(Route::NotFound),
    }
}

/// The liveness response: always succeeds.
pub fn health_response() -> (r: HttpResponse)
    ensures
        r.status == 200,
        r.body@ == "healthy"@,
{
    HttpResponse { status: 200, body: "healthy".to_owned() }
}

/// The response for an unrouted request: not found, empty body.
pub fn not_found_response() -> (r: HttpResponse)
    ensures
        r.status == 404,
        r.body@ == ""@,
{
    HttpResponse { status: 404, body: "".to_owned() }
}

/// The response for a read by identity key: the encoded record when one
/// matched, else a not-found status naming the missing key — the one place
/// a domain absence shows at the HTTP boundary.
pub fn user_by_id_response(id: &str, found: Option<User>) -> (r: HttpResponse)
    ensures
        match found {
            Some(u) => r.status == 200 && r.body@ == enc_user(u@),
            None => r.status == 404 && r.body@ == "User "@ + id@ + " not found"@,
        },
{
    match found {
        Some(u) => HttpResponse { status: 200, body: encode_user(&u) },
        None => {
            let body = "User ".to_owned().concat(id).concat(" not found");
            HttpResponse { status: 404, body }
        },
    }
}

/// The response for a read by name: always a success status with the
/// encoded, possibly empty, sequence.
pub fn users_by_name_response(users: &Vec<User>) -> (r: HttpResponse)
    ensures
        r.status == 200,
        r.body@ == enc_users(views_of(users@)),
{
    HttpResponse { status: 200, body: encode_users(users) }
}

/// The response for a successful insert: the stored record echoed back.
pub fn added_user_response(u: &User) -> (r: HttpResponse)
    ensures
        r.status == 200,
        r.body@ == enc_user(u@),
{
    HttpResponse { status: 200, body: encode_user(u) }
}

/// The uniform failure response: one internal-failure status carrying the
/// error's message verbatim, for every kind of failure alike.
pub fn error_response(e: &AppError) -> (r: HttpResponse)
    ensures
        r.status == 500,
        r.body@ == e.message@,
{
    HttpResponse { status: 500, body: e.message.clone() }
}

/// The dispatcher: the routing table bound to a user table.
pub struct Endpoints {
    pub db: UserTable,
}

impl Endpoints {
    /// Whether the bound table satisfies its invariant.
    pub open spec fn inv(&self) -> bool {
        self.db.inv()
    }

    /// Binds the dispatcher to a table.
    pub fn new(db: UserTable) -> (r: Endpoints)
        ensures
            r.db@ == db@,
            db.inv() ==> r.inv(),
    {
        Endpoints { db }
    }

    /// Routes one request and runs its handler; a domain absence becomes a
    /// not-found response here, every failure propagates as the uniform
    /// error.
    pub fn routes(&mut self, method: Method, path: &str, query: Option<&str>, body: &str) -> (r:
        Result<HttpResponse, AppError>)
        requires
            old(self).inv(),
        ensures
            final(self).inv(),
            method == Method::Get && path@ == "/health"@ ==> (r matches Ok(resp) && resp.status
                == 200 && resp.body@ == "healthy"@ && final(self).db@ == old(self).db@),
            method == Method::Get && path@ == "/users/by-id"@ ==> (match param_lookup_spec(
                opt_view(query),
                "id"@,
            ) {
                Err(m) => r matches Err(e) && e.message@ == m && final(self).db@ == old(self).db@,
                Ok(idv) => final(self).db@ == old(self).db@ && (if !old(self).db@.initialized {
                    r matches Err(e) && e.message@ == "no users table"@
                } else if has_id(old(self).db@.rows, idv) {
                    r matches Ok(resp) && resp.status == 200 && exists|i: int|
                        0 <= i < old(self).db@.rows.len() && #[trigger] old(self).db@.rows[i].id
                            == idv && resp.body@ == enc_user(old(self).db@.rows[i])
                } else {
                    r matches Ok(resp) && resp.status == 404 && resp.body@ == "User "@ + idv
                        + " not found"@
                }),
            }),
            method == Method::Get && path@ == "/users/by-name"@ ==> (match param_lookup_spec(
                opt_view(query),
                "name"@,
            ) {
                Err(m) => r matches Err(e) && e.message@ == m && final(self).db@ == old(self).db@,
                Ok(namev) => final(self).db@ == old(self).db@ && (if !old(self).db@.initialized {
                    r matches Err(e) && e.message@ == "no users table"@
                } else {
                    r matches Ok(resp) && resp.status == 200 && resp.body@ == enc_users(
                        rows_with_name(old(self).db@.rows, namev),
                    )
                }),
            }),
            method == Method::Post && path@ == "/users"@ ==> (match parse_user_spec(body@) {
                None => r matches Err(e) && e.message@ == "Malformed user body"@ && final(self).db@
                    == old(self).db@,
                Some(v) => if !old(self).db@.initialized {
                    r matches Err(e) && e.message@ == "no users table"@ && final(self).db@ == old(self).db@
                } else if has_id(old(self).db@.rows, v.id) {
                    r matches Err(e) && e.message@ == "duplicate user id"@ && final(self).db@
                        == old(self).db@
                } else {
                    r matches Ok(resp) && resp.status == 200 && resp.body@ == enc_user(v) && final(self).db@.initialized && final(self).db@.rows == old(self).db@.rows.push(v)
                },
            }),
            !(method == Method::Get && (path@ == "/health"@ || path@ == "/users/by-id"@ || path@
                == "/users/by-name"@)) && !(method == Method::Post && path@ == "/users"@) ==> (r
                matches Ok(resp) && resp.status == 404 && resp.body@ == ""@ && final(self).db@
                == old(self).db@),
    {
        let rt = match route(method, path, query) {
            Ok(rt) => rt,
            Err(e) => {
                return Err(e);
            },
        };
        match rt {
            Route::Health => Ok(health_response()),
            Route::UserById(id) => {
                match self.db.get_user_by_id(id.as_str()) {
                    Err(e) => Err(e),
                    Ok(opt) => Ok(user_by_id_response(id.as_str(), opt)),
                }
            },
            Route::UsersByName(name) => {
                match self.db.get_users_by_name(name.as_str()) {
                    Err(e) => Err(e),
                    Ok(users) => Ok(users_by_name_response(&users)),
                }
            },
            Route::AddUser => {
                match decode_user(body) {
                    Err(e) => Err(e),
                    Ok(u) => {
                        match self.db.insert_user(&u) {
                            Err(e) => Err(e),
                            Ok(()) => Ok(added_user_response(&u)),
                        }
                    },
                }
            },
            Route::NotFound => Ok(not_found_response()),
        }
    }

    /// Routes one request and maps every uniform error to the one
    /// internal-failure response carrying its message.
    pub fn routes_with_error_handling(
        &mut self,
        method: Method,
        path: &str,
        query: Option<&str>,
        body: &str,
    ) -> (r: HttpResponse)
        requires
            old(self).inv(),
        ensures
            final(self).inv(),
            method == Method::Get && path@ == "/health"@ ==> r.status == 200 && r.body@
                == "healthy"@ && final(self).db@ == old(self).db@,
            method == Method::Get && path@ == "/users/by-id"@ ==> (match param_lookup_spec(
                opt_view(query),
                "id"@,
            ) {
                Err(m) => r.status == 500 && r.body@ == m && final(self).db@ == old(self).db@,
                Ok(idv) => final(self).db@ == old(self).db@ && (if !old(self).db@.initialized {
                    r.status == 500 && r.body@ == "no users table"@
                } else if has_id(old(self).db@.rows, idv) {
                    r.status == 200 && exists|i: int|
                        0 <= i < old(self).db@.rows.len() && #[trigger] old(self).db@.rows[i].id
                            == idv && r.body@ == enc_user(old(self).db@.rows[i])
                } else {
                    r.status == 404 && r.body@ == "User "@ + idv + " not found"@
                }),
            }),
            method == Method::Get && path@ == "/users/by-name"@ ==> (match param_lookup_spec(
                opt_view(query),
                "name"@,
            ) {
                Err(m) => r.status == 500 && r.body@ == m && final(self).db@ == old(self).db@,
                Ok(namev) => final(self).db@ == old(self).db@ && (if !old(self).db@.initialized {
                    r.status == 500 && r.body@ == "no users table"@
                } else {
                    r.status == 200 && r.body@ == enc_users(
                        rows_with_name(old(self).db@.rows, namev),
                    )
                }),
            }),
            method == Method::Post && path@ == "/users"@ ==> (match parse_user_spec(body@) {
                None => r.status == 500 && r.body@ == "Malformed user body"@ && final(self).db@
                    == old(self).db@,
                Some(v) => if !old(self).db@.initialized {
                    r.status == 500 && r.body@ == "no users table"@ && final(self).db@ == old(self).db@
                } else if has_id(old(self).db@.rows, v.id) {
                    r.status == 500 && r.body@ == "duplicate user id"@ && final(self).db@ == old(self).db@
                } else {
                    r.status == 200 && r.body@ == enc_user(v) && final(self).db@.initialized
                        && final(self).db@.rows == old(self).db@.rows.push(v)
                },
            }),
            !(method == Method::Get && (path@ == "/health"@ || path@ == "/users/by-id"@ || path@
                == "/users/by-name"@)) && !(method == Method::Post && path@ == "/users"@) ==> r
                .status == 404 && r.body@ == ""@ && final(self).db@ == old(self).db@,
    {
        match self.routes(method, path, query, body) {
            Ok(resp) => resp,
            Err(e) => error_response(&e),
        }
    }
}

} // verus!
