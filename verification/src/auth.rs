use vstd::prelude::*;

use argon2::{Argon2, PasswordHasher, PasswordVerifier};
use password_hash::{PasswordHash, Salt, SaltString};
use rand_core::OsRng;
use uuid::Uuid;

use crate::digest::hex_digit;
use crate::refusal::Refusal;
use crate::text::{
    chars_of, has_prefix_at, push_str, str_equals, string_of, to_owned_string, trim,
    trim_spec,
};
use vstd::utf8::encode_utf8;

verus! {

// ----------------------------------------------------------------------
// Accounts
// ----------------------------------------------------------------------

/// An account as the service shows it.
#[derive(Clone, Debug)]
pub struct User {
    pub id: String,
    pub username: String,
    pub role: String,
    pub api_key: String,
}

/// A login attempt.
#[derive(Debug)]
pub struct LoginRequest {
    pub username: String,
    pub password: String,
}

/// The answer to a successful login: the management token and the account.
#[derive(Debug)]
pub struct LoginResponse {
    pub token: String,
    pub user: User,
}

/// A request to create an account; `role` defaults to `user`.
#[derive(Debug)]
pub struct CreateUserRequest {
    pub username: String,
    pub password: String,
    pub role: Option<String>,
}

/// The account a management request is made by, found by its bearer token.
#[derive(Clone, Debug)]
pub struct AuthUser(pub User);

/// The account an upload is made by, found by its upload key.
#[derive(Clone, Debug)]
pub struct ApiKeyUser(pub User);

/// Whether an account has the administrator role.
pub open spec fn is_admin(u: User) -> bool {
    u.role@ == "admin"@
}

/// Whether `user` administers the service.
pub fn user_is_admin(user: &User) -> (b: bool)
    ensures
        b == is_admin(*user),
{
    str_equals(user.role.as_str(), "admin")
}

/// The number of accounts the statistics show `user`: all of them (`all_users`)
/// to an administrator, 1, the caller's own, to anyone else.
pub fn stats_user_count(user: &User, all_users: i64) -> (n: i64)
    ensures
        n == (if is_admin(*user) {
            all_users
        } else {
            1
        }),
{
    if user_is_admin(user) {
        all_users
    } else {
        1
    }
}

/// Refuses users who are not administrators.
pub fn require_admin(user: &User) -> (r: Result<(), Refusal>)
    ensures
        r == (if is_admin(*user) {
            Ok(())
        } else {
            Err(Refusal::AdminRequired)
        }),
{
    if user_is_admin(user) {
        Ok(())
    } else {
        Err(Refusal::AdminRequired)
    }
}

/// The number of bytes of `s` in UTF-8, what `str::len` counts.
pub open spec fn utf8_len(s: Seq<char>) -> nat {
    encode_utf8(s).len()
}

/// The checks on a new account: the trimmed username has at least 3 bytes and
/// the password at least 8; the trimmed username is what is stored.
pub fn check_new_account(username: &str, password: &str) -> (r: Result<String, Refusal>)
    ensures
        match r {
            Ok(name) => name@ == trim_spec(username@) && utf8_len(name@) >= 3 && utf8_len(
                password@,
            ) >= 8,
            Err(e) => e == Refusal::CredentialsTooShort && (utf8_len(trim_spec(username@)) < 3
                || utf8_len(password@) < 8),
        },
{
    let name = trim(username);
    if name.as_str().as_bytes().len() < 3 || password.as_bytes().len() < 8 {
        return Err(Refusal::CredentialsTooShort);
    }
    Ok(name)
}

/// The role of a self-registered account: the first account administers the
/// service, every later one is an ordinary user.
pub fn registration_role(user_count: i64) -> (role: &'static str)
    ensures
        role@ == (if user_count == 0 {
            "admin"@
        } else {
            "user"@
        }),
{
    if user_count == 0 {
        "admin"
    } else {
        "user"
    }
}

/// The role an administrator asks a new account to have: `user` when none is
/// given; only `admin` and `user` exist.
pub fn requested_role(role: Option<String>) -> (r: Result<String, Refusal>)
    ensures
        match role {
            None => r matches Ok(s) && s@ == "user"@,
            Some(x) => if x@ == "admin"@ || x@ == "user"@ {
                r matches Ok(s) && s@ == x@
            } else {
                r == Err::<String, Refusal>(Refusal::InvalidRole)
            },
        },
{
    match role {
        None => Ok(to_owned_string("user")),
        Some(x) => {
            if str_equals(x.as_str(), "admin") || str_equals(x.as_str(), "user") {
                Ok(x)
            } else {
                Err(Refusal::InvalidRole)
            }
        },
    }
}

/// Who may give an account a new upload key: an administrator, or the account itself.
pub fn authorize_key_rotation(actor: &User, target_id: &str) -> (r: Result<(), Refusal>)
    ensures
        r == (if is_admin(*actor) || actor.id@ == target_id@ {
            Ok(())
        } else {
            Err(Refusal::CannotRotateOthersKey)
        }),
{
    if user_is_admin(actor) || str_equals(actor.id.as_str(), target_id) {
        Ok(())
    } else {
        Err(Refusal::CannotRotateOthersKey)
    }
}

/// Who may delete an account: an administrator, and never their own.
pub fn authorize_user_deletion(actor: &User, target_id: &str) -> (r: Result<(), Refusal>)
    ensures
        r == (if !is_admin(*actor) {
            Err(Refusal::AdminRequired)
        } else if actor.id@ == target_id@ {
            Err(Refusal::CannotDeleteSelf)
        } else {
            Ok(())
        }),
{
    if !user_is_admin(actor) {
        Err(Refusal::AdminRequired)
    } else if str_equals(actor.id.as_str(), target_id) {
        Err(Refusal::CannotDeleteSelf)
    } else {
        Ok(())
    }
}

/// Which accounts can be deleted: none that administers the service.
pub fn check_deletion_target(target_role: &str) -> (r: Result<(), Refusal>)
    ensures
        r == (if target_role@ == "admin"@ {
            Err(Refusal::CannotDeleteAdmin)
        } else {
            Ok(())
        }),
{
    if str_equals(target_role, "admin") {
        Err(Refusal::CannotDeleteAdmin)
    } else {
        Ok(())
    }
}

/// Who may see or delete a stored file: an administrator, or its owner.
pub fn can_access_image(user: &User, owner_id: &str) -> (b: bool)
    ensures
        b == (is_admin(*user) || user.id@ == owner_id@),
{
    user_is_admin(user) || str_equals(user.id.as_str(), owner_id)
}

/// Which stored files a listing shows, newest first, and how many at most.
#[derive(Debug)]
pub enum ListScope {
    /// Every user's files.
    All { limit: u32 },
    /// The files of one owner.
    Owner { owner_id: String, limit: u32 },
}

/// What a user's listing of stored files covers: an administrator sees everyone's
/// files, up to 500; any other user sees only their own, up to 200.
pub fn list_scope(user: &User) -> (s: ListScope)
    ensures
        is_admin(*user) ==> (s == (ListScope::All { limit: 500 })),
        !is_admin(*user) ==> (s matches ListScope::Owner { owner_id, limit } && owner_id@
            == user.id@ && limit == 200),
{
    if user_is_admin(user) {
        ListScope::All { limit: 500 }
    } else {
        ListScope::Owner { owner_id: to_owned_string(user.id.as_str()), limit: 200 }
    }
}

// ----------------------------------------------------------------------
// Credentials carried by requests
// ----------------------------------------------------------------------

/// The token of an `Authorization: Bearer <token>` value, trimmed.
pub open spec fn bearer_spec(h: Seq<char>) -> Option<Seq<char>> {
    if h.len() >= 7 && h.subrange(0, 7) == "Bearer "@ && trim_spec(h.subrange(7, h.len() as int)).len()
        > 0 {
        Some(trim_spec(h.subrange(7, h.len() as int)))
    } else {
        None
    }
}

/// The management token a request carries. `authorization` is the header's value
/// when it is present and readable as text.
pub fn bearer_token(authorization: Option<&str>) -> (r: Result<String, Refusal>)
    ensures
        match authorization {
            Some(h) => match bearer_spec(h@) {
                Some(t) => r matches Ok(s) && s@ == t,
                None => r == Err::<String, Refusal>(Refusal::MissingBearerToken),
            },
            None => r == Err::<String, Refusal>(Refusal::MissingBearerToken),
        },
{
    match authorization {
        None => Err(Refusal::MissingBearerToken),
        Some(h) => {
            let v = chars_of(h);
            if !has_prefix_at(&v, 0, "Bearer ") {
                proof {
                    reveal_strlit("Bearer ");
                }
                return Err(Refusal::MissingBearerToken);
            }
            proof {
                reveal_strlit("Bearer ");
            }
            let rest = string_of(&v, 7, v.len());
            let t = trim(rest.as_str());
            if t.as_str().unicode_len() == 0 {
                return Err(Refusal::MissingBearerToken);
            }
            Ok(t)
        },
    }
}

pub open spec fn upload_key_spec(
    x_api_key: Option<Option<Seq<char>>>,
    x_picbad_key: Option<Option<Seq<char>>>,
) -> Option<Seq<char>> {
    let chosen = match x_api_key {
        Some(v) => v,
        None => match x_picbad_key {
            Some(v) => v,
            None => None,
        },
    };
    match chosen {
        Some(k) => if trim_spec(k).len() > 0 {
            Some(trim_spec(k))
        } else {
            None
        },
        None => None,
    }
}

pub open spec fn header_view(h: Option<Option<&str>>) -> Option<Option<Seq<char>>> {
    match h {
        Some(Some(s)) => Some(Some(s@)),
        Some(None) => Some(None),
        None => None,
    }
}

/// The upload key a request carries: the `x-api-key` header, else `x-picbad-key`,
/// trimmed. Each header is `None` when absent and `Some(None)` when present but
/// not readable as text; a present header is used even then.
pub fn upload_key(x_api_key: Option<Option<&str>>, x_picbad_key: Option<Option<&str>>) -> (r:
    Result<String, Refusal>)
    ensures
        match upload_key_spec(header_view(x_api_key), header_view(x_picbad_key)) {
            Some(k) => r matches Ok(s) && s@ == k,
            None => r == Err::<String, Refusal>(Refusal::MissingUploadKey),
        },
{
    let chosen = match x_api_key {
        Some(v) => v,
        None => match x_picbad_key {
            Some(v) => v,
            None => None,
        },
    };
    match chosen {
        None => Err(Refusal::MissingUploadKey),
        Some(k) => {
            let t = trim(k);
            if t.as_str().unicode_len() == 0 {
                Err(Refusal::MissingUploadKey)
            } else {
                Ok(t)
            }
        },
    }
}

// ----------------------------------------------------------------------
// Files left by a deleted account
// ----------------------------------------------------------------------

/// Whether some entry of `s` before position `n` has hash `h`.
pub open spec fn seen_before(s: Seq<(Seq<char>, Seq<char>)>, n: int, h: Seq<char>) -> bool {
    exists|j: int| 0 <= j < n && s[j].0 == h
}

/// The first entry for each hash, in order.
pub open spec fn first_per_hash(s: Seq<(Seq<char>, Seq<char>)>) -> Seq<(Seq<char>, Seq<char>)>
    decreases s.len(),
{
    if s.len() == 0 {
        Seq::empty()
    } else if seen_before(s, s.len() - 1, s.last().0) {
        first_per_hash(s.drop_last())
    } else {
        first_per_hash(s.drop_last()).push(s.last())
    }
}

pub open spec fn pairs_view(v: Seq<(String, String)>) -> Seq<(Seq<char>, Seq<char>)> {
    v.map_values(|p: (String, String)| (p.0@, p.1@))
}

proof fn lemma_first_per_hash(s: Seq<(Seq<char>, Seq<char>)>)
    ensures
        forall|a: int, b: int|
            0 <= a < b < first_per_hash(s).len() ==> first_per_hash(s)[a].0 != first_per_hash(
                s,
            )[b].0,
        forall|x: (Seq<char>, Seq<char>)| first_per_hash(s).contains(x) ==> s.contains(x),
        forall|j: int|
            #![trigger s[j]]
            0 <= j < s.len() ==> exists|a: int|
                #![trigger first_per_hash(s)[a]]
                0 <= a < first_per_hash(s).len() && first_per_hash(s)[a].0 == s[j].0,
    decreases s.len(),
{
    if s.len() > 0 {
        let p = s.drop_last();
        lemma_first_per_hash(p);
        let f = first_per_hash(p);
        assert forall|x: (Seq<char>, Seq<char>)| f.contains(x) implies s.contains(x) by {
            assert(p.contains(x));
            let k = choose|k: int| 0 <= k < p.len() && p[k] == x;
            assert(p[k] == s[k]);
            assert(s[k] == x);
        }
        if seen_before(s, s.len() - 1, s.last().0) {
            assert(first_per_hash(s) == f);
            assert forall|j: int| #![trigger s[j]] 0 <= j < s.len() implies exists|a: int|
                #![trigger f[a]]
                0 <= a < f.len() && f[a].0 == s[j].0 by {
                if j < s.len() - 1 {
                    assert(s[j] == p[j]);
                } else {
                    let k = choose|k: int| 0 <= k < s.len() - 1 && s[k].0 == s.last().0;
                    assert(s[k] == p[k]);
                }
            }
        } else {
            let g = f.push(s.last());
            assert(first_per_hash(s) == g);
            assert forall|a: int, b: int| 0 <= a < b < g.len() implies g[a].0 != g[b].0 by {
                if b == g.len() - 1 {
                    assert(f.contains(g[a]));
                    assert(p.contains(g[a]));
                    let k = choose|k: int| 0 <= k < p.len() && p[k] == g[a];
                    assert(s[k] == p[k]);
                }
            }
            assert forall|x: (Seq<char>, Seq<char>)| g.contains(x) implies s.contains(x) by {
                let k = choose|k: int| 0 <= k < g.len() && g[k] == x;
                if k < f.len() {
                    assert(f.contains(x));
                } else {
                    assert(s[s.len() - 1] == x);
                }
            }
            assert forall|j: int| #![trigger s[j]] 0 <= j < s.len() implies exists|a: int|
                #![trigger g[a]]
                0 <= a < g.len() && g[a].0 == s[j].0 by {
                if j < s.len() - 1 {
                    assert(s[j] == p[j]);
                    let a = choose|a: int| 0 <= a < f.len() && f[a].0 == p[j].0;
                    assert(g[a] == f[a]);
                } else {
                    assert(g[g.len() - 1] == s[j]);
                }
            }
        }
    }
}

/// The files of a deleted account to look at once each: the first `(hash, ext)`
/// entry for every hash, in order. No hash occurs twice in the result, every
/// entry is one of `media` and every hash of `media` is represented.
pub fn distinct_media(media: Vec<(String, String)>) -> (r: Vec<(String, String)>)
    ensures
        pairs_view(r@) == first_per_hash(pairs_view(media@)),
        forall|a: int, b: int| 0 <= a < b < r@.len() ==> r@[a].0@ != r@[b].0@,
        forall|x: (Seq<char>, Seq<char>)|
            pairs_view(r@).contains(x) ==> pairs_view(media@).contains(x),
        forall|j: int|
            #![trigger media@[j]]
            0 <= j < media@.len() ==> exists|a: int|
                #![trigger r@[a]]
                0 <= a < r@.len() && r@[a].0@ == media@[j].0@,
{
    let ghost s = pairs_view(media@);
    let mut r: Vec<(String, String)> = Vec::new();
    let mut i: usize = 0;
    while i < media.len()
        invariant
            s == pairs_view(media@),
            0 <= i <= media@.len(),
            pairs_view(r@) == first_per_hash(s.take(i as int)),
        decreases media@.len() - i,
    {
        let ghost t = s.take(i + 1);
        assert(t.drop_last() =~= s.take(i as int));
        assert(t.last() == s[i as int]);
        assert(s[i as int] == (media@[i as int].0@, media@[i as int].1@));
        let mut seen = false;
        let mut j: usize = 0;
        while j < i
            invariant
                s == pairs_view(media@),
                0 <= j <= i < media@.len(),
                seen == exists|k: int| 0 <= k < j && s[k].0 == s[i as int].0,
            decreases i - j,
        {
            assert(s[j as int] == (media@[j as int].0@, media@[j as int].1@));
            if str_equals(media[j].0.as_str(), media[i].0.as_str()) {
                seen = true;
            }
            j += 1;
        }
        assert(seen == seen_before(t, t.len() - 1, t.last().0)) by {
            if seen {
                let k = choose|k: int| 0 <= k < i && s[k].0 == s[i as int].0;
                assert(t[k] == s[k]);
            }
            if seen_before(t, t.len() - 1, t.last().0) {
                let k = choose|k: int| 0 <= k < t.len() - 1 && t[k].0 == t.last().0;
                assert(t[k] == s[k]);
            }
        }
        if !seen {
            let ghost prev = pairs_view(r@);
            r.push((to_owned_string(media[i].0.as_str()), to_owned_string(media[i].1.as_str())));
            assert(pairs_view(r@) =~= prev.push(s[i as int]));
        }
        i += 1;
    }
    assert(s.take(media@.len() as int) =~= s);
    proof {
        lemma_first_per_hash(s);
        assert forall|a: int, b: int| 0 <= a < b < r@.len() implies r@[a].0@ != r@[b].0@ by {
            assert(pairs_view(r@)[a].0 == r@[a].0@);
            assert(pairs_view(r@)[b].0 == r@[b].0@);
        }
        assert forall|j: int| #![trigger media@[j]] 0 <= j < media@.len() implies exists|a: int|
            #![trigger r@[a]]
            0 <= a < r@.len() && r@[a].0@ == media@[j].0@ by {
            assert(s[j].0 == media@[j].0@);
            let a = choose|a: int|
                0 <= a < first_per_hash(s).len() && first_per_hash(s)[a].0 == s[j].0;
            assert(pairs_view(r@)[a].0 == r@[a].0@);
        }
    }
    r
}

// ----------------------------------------------------------------------
// Secrets
// ----------------------------------------------------------------------

#[verifier::external_type_specification]
#[verifier::external_body]
pub struct ExPasswordHashError(password_hash::Error);

/// A random version 4 UUID, as its 128-bit value (the 16 bytes read big-endian).
///
/// Trusted: `uuid::Uuid::new_v4` then `Uuid::as_u128`. `new_v4` masks random
/// bits so that the version nibble (bits 76 to 79) reads 4 and the variant bits
/// (62 and 63) read `10`; those two facts are claimed, the other bits are random.
#[verifier::external_body]
fn random_uuid() -> (u: u128)
    ensures
        (u >> 76u128) & 0xFu128 == 4,
        (u >> 62u128) & 3u128 == 2,
{
    Uuid::new_v4().as_u128()
}

pub open spec fn is_lower_hex(c: char) -> bool {
    ('0' <= c <= '9') || ('a' <= c <= 'f')
}

/// The `j`-th of the 32 hexadecimal digits of a 128-bit value, most significant first.
pub open spec fn uuid_nibble(u: u128, j: int) -> u8 {
    ((u >> ((124 - 4 * j) as u128)) & 0xFu128) as u8
}

/// The simple text form of the UUID with value `u`.
///
/// Trusted: `uuid::Uuid::from_u128` then `Uuid::simple` written out with its
/// `Display`, which encodes the 16 bytes in order as 32 hexadecimal digits, lower
/// case (`format_simple` with `upper` false): digit `j` is the nibble `j` of `u`
/// counted from the most significant.
#[verifier::external_body]
fn uuid_simple_text(u: u128) -> (s: String)
    ensures
        s@.len() == 32,
        forall|j: int| 0 <= j < 32 ==> #[trigger] s@[j] == hex_digit(uuid_nibble(u, j)),
{
    Uuid::from_u128(u).simple().to_string()
}

/// Each nibble is a lower-case hex digit.
proof fn lemma_nibble_digit(u: u128, j: int)
    requires
        0 <= j < 32,
    ensures
        uuid_nibble(u, j) < 16,
        is_lower_hex(hex_digit(uuid_nibble(u, j))),
{
    let sh = (124 - 4 * j) as u128;
    assert((u >> sh) & 0xFu128 < 16) by (bit_vector);
}

/// Where digit `j` of the 32 stands in the hyphenated form `8-4-4-4-12`.
pub open spec fn hyphenated_index(j: int) -> int {
    if j < 8 {
        j
    } else if j < 12 {
        j + 1
    } else if j < 16 {
        j + 2
    } else if j < 20 {
        j + 3
    } else {
        j + 4
    }
}

/// Whether position `i` of the hyphenated form holds a hyphen.
pub open spec fn is_hyphen_position(i: int) -> bool {
    i == 8 || i == 13 || i == 18 || i == 23
}

/// The hyphenated text form of the UUID with value `u`.
///
/// Trusted: `uuid::Uuid::from_u128` then `Uuid::hyphenated` written out with its
/// `Display` (`format_hyphenated` with `upper` false): the 32 lower-case digits of
/// the simple form, in order, with a hyphen after the 8th, 12th, 16th and 20th.
#[verifier::external_body]
fn uuid_hyphenated_text(u: u128) -> (s: String)
    ensures
        s@.len() == 36,
        forall|i: int| is_hyphen_position(i) ==> #[trigger] s@[i] == '-',
        forall|j: int|
            0 <= j < 32 ==> #[trigger] s@[hyphenated_index(j)] == hex_digit(uuid_nibble(u, j)),
{
    Uuid::from_u128(u).hyphenated().to_string()
}

/// The variant bits `10` make the nibble after them read 8 to 11.
proof fn lemma_variant_nibble(u: u128)
    requires
        (u >> 62u128) & 3u128 == 2,
    ensures
        8 <= uuid_nibble(u, 16) <= 11,
{
    assert(8 <= (u >> 60u128) & 0xFu128 <= 11) by (bit_vector)
        requires
            (u >> 62u128) & 3u128 == 2,
    ;
}

/// A fresh identifier: a random version 4 UUID in its hyphenated form, 36
/// characters with hyphens at 8, 13, 18 and 23 and lower-case hex digits elsewhere;
/// the version digit (at 14) is `4`, the variant digit (at 19) one of `8`, `9`,
/// `a`, `b`.
pub fn new_id() -> (s: String)
    ensures
        s@.len() == 36,
        forall|i: int| 0 <= i < 36 && is_hyphen_position(i) ==> #[trigger] s@[i] == '-',
        forall|i: int|
            0 <= i < 36 && !is_hyphen_position(i) ==> is_lower_hex(#[trigger] s@[i]),
        s@[14] == '4',
        s@[19] == '8' || s@[19] == '9' || s@[19] == 'a' || s@[19] == 'b',
{
    let u = random_uuid();
    let s = uuid_hyphenated_text(u);
    proof {
        assert forall|i: int| 0 <= i < 36 && !is_hyphen_position(i) implies is_lower_hex(
            #[trigger] s@[i],
        ) by {
            let j = if i < 8 {
                i
            } else if i < 13 {
                i - 1
            } else if i < 18 {
                i - 2
            } else if i < 23 {
                i - 3
            } else {
                i - 4
            };
            assert(hyphenated_index(j) == i);
            assert(s@[hyphenated_index(j)] == hex_digit(uuid_nibble(u, j)));
            lemma_nibble_digit(u, j);
        }
        assert(s@[hyphenated_index(12)] == hex_digit(uuid_nibble(u, 12)));
        assert(uuid_nibble(u, 12) == 4);
        assert(s@[hyphenated_index(16)] == hex_digit(uuid_nibble(u, 16)));
        lemma_variant_nibble(u);
    }
    s
}

/// A fresh upload key: `pk_` followed by a random version 4 UUID in 32 lower-case
/// hex digits; the version digit is `4` and the variant digit one of `8`, `9`,
/// `a`, `b`.
pub fn new_api_key() -> (k: String)
    ensures
        k@.len() == 35,
        k@.subrange(0, 3) == "pk_"@,
        forall|i: int| 3 <= i < 35 ==> is_lower_hex(#[trigger] k@[i]),
        k@[15] == '4',
        k@[19] == '8' || k@[19] == '9' || k@[19] == 'a' || k@[19] == 'b',
{
    let u = random_uuid();
    let text = uuid_simple_text(u);
    let mut k = String::new();
    push_str(&mut k, "pk_");
    push_str(&mut k, text.as_str());
    proof {
        reveal_strlit("pk_");
        assert(k@.subrange(0, 3) =~= "pk_"@);
        assert forall|i: int| 3 <= i < 35 implies is_lower_hex(#[trigger] k@[i]) by {
            assert(k@[i] == text@[i - 3]);
            lemma_nibble_digit(u, i - 3);
        }
        assert(k@[15] == text@[12]);
        assert(k@[19] == text@[16]);
        assert(uuid_nibble(u, 12) == 4);
        lemma_variant_nibble(u);
    }
    k
}

/// Whether `c` belongs to the standard Base64 alphabet.
pub open spec fn is_b64_char(c: char) -> bool {
    ('A' <= c <= 'Z') || ('a' <= c <= 'z') || ('0' <= c <= '9') || c == '+' || c == '/'
}

/// Whether `s` is the unpadded Base64 text of a 16-byte salt: 22 characters of
/// the alphabet, the last carrying no bits beyond the 128 of the salt.
pub open spec fn is_salt_text(s: Seq<char>) -> bool {
    &&& s.len() == 22
    &&& forall|i: int| 0 <= i < 22 ==> is_b64_char(#[trigger] s[i])
    &&& (s[21] == 'A' || s[21] == 'Q' || s[21] == 'g' || s[21] == 'w')
}

/// A random salt for password hashing, as its Base64 text.
///
/// Trusted: `password_hash::SaltString::generate` with `rand_core::OsRng`, read
/// back with `SaltString::as_str`. `generate` draws 16 random bytes and encodes
/// them as unpadded standard Base64 (`Encoding::B64`), which is 22 characters
/// whose last one encodes 2 bits followed by 4 zero bits. Which bytes is random.
#[verifier::external_body]
fn random_salt() -> (s: String)
    ensures
        is_salt_text(s@),
{
    SaltString::generate(&mut OsRng).as_str().to_string()
}

/// Whether Argon2 accepts `password` against the PHC string `phc`: the string
/// parses, and hashing the password with the algorithm, version, parameters and
/// salt it records gives the hash it holds.
pub uninterp spec fn argon2_accepts(password: Seq<char>, phc: Seq<char>) -> bool;

/// Hashes `password` with Argon2 under the salt whose Base64 text is `salt`, as a
/// PHC string.
///
/// Trusted: `password_hash::Salt::from_b64`, then
/// `<argon2::Argon2 as PasswordHasher>::hash_password` on `Argon2::default()`, the
/// result written out with its `Display`. The contract claims two things. A hash
/// it gives is accepted for the same password by `argon2_verify`: verification
/// re-hashes with the salt, algorithm, version and parameters recorded in the
/// string and compares, and both sides use `Argon2::default()`. And for the text of
/// a 16-byte salt, the call fails exactly when the password is longer than
/// `u32::MAX` bytes: `from_b64` takes 4 to 64 characters of the alphabet, the
/// canonical text decodes to 16 bytes, and `verify_inputs` then refuses only a
/// password over `MAX_PWD_LEN` or a salt under 8 bytes. The hash itself is not
/// stated.
#[verifier::external_body]
fn argon2_hash(password: &str, salt: &str) -> (r: Result<String, password_hash::Error>)
    ensures
        r matches Ok(h) ==> argon2_accepts(password@, h@),
        is_salt_text(salt@) ==> (r is Ok <==> encode_utf8(password@).len() <= 0xFFFF_FFFF),
{
    match Salt::from_b64(salt) {
        Ok(parsed) => match Argon2::default().hash_password(password.as_bytes(), parsed) {
            Ok(h) => Ok(h.to_string()),
            Err(e) => Err(e),
        },
        Err(e) => Err(e),
    }
}

/// Why a password could not be hashed.
pub struct PasswordHashFailure;

/// `password` hashed with Argon2 under a fresh random salt, as a PHC string that
/// `verify_password` accepts for the same password. It fails only for a password
/// longer than `u32::MAX` bytes.
pub fn hash_password(password: &str) -> (r: Result<String, PasswordHashFailure>)
    ensures
        r matches Ok(h) ==> argon2_accepts(password@, h@),
        r is Ok <==> utf8_len(password@) <= 0xFFFF_FFFF,
{
    let salt = random_salt();
    match argon2_hash(password, salt.as_str()) {
        Ok(h) => Ok(h),
        Err(_) => Err(PasswordHashFailure),
    }
}

/// Checks `password` against a stored PHC string.
///
/// Trusted: `password_hash::PasswordHash::new`, which parses `phc` into the
/// argument `verify_password` takes (a parse error is an answer of `false`), then
/// `<argon2::Argon2 as PasswordVerifier>::verify_password` on `Argon2::default()`.
/// The answer depends on `password` and `phc` alone; the contract names it.
#[verifier::external_body]
fn argon2_verify(password: &str, phc: &str) -> (ok: bool)
    ensures
        ok == argon2_accepts(password@, phc@),
{
    match PasswordHash::new(phc) {
        Ok(parsed) => Argon2::default().verify_password(password.as_bytes(), &parsed).is_ok(),
        Err(_) => false,
    }
}

/// Whether `password` matches the stored PHC string `hash`.
pub fn verify_password(password: &str, hash: &str) -> (ok: bool)
    ensures
        ok == argon2_accepts(password@, hash@),
{
    argon2_verify(password, hash)
}

} // verus!
