//! Accounts: users with SHA-256 password hashes, the checks a registration
//! must pass, the `name:hash` records of the users file, and the logged-in
//! session. Reading and writing the file and the terminal is left to the
//! caller, which hands each line read to these functions.

use crate::text::{hex_char, hex_digit, parse_i32, parse_i32_spec, str_chars, string_from_chars, trim, trim_chars};
use sha2::{Digest, Sha256};
use vstd::prelude::*;
use vstd::utf8::encode_utf8;

verus! {

/// Names the digest that `Sha256::digest` returns for a byte string.
pub uninterp spec fn sha256_digest(data: Seq<u8>) -> Seq<u8>;

/// Calls `sha2::Sha256::digest`, the one-shot SHA-256 of the `Digest`
/// trait, and hands the 32-byte output back as a vector. Claimed: the
/// result is the named digest of `data` and has 32 bytes (`Sha256`'s
/// output size is `U32`).
#[verifier::external_body]
fn sha256(data: &[u8]) -> (r: Vec<u8>)
    ensures
        r@ == sha256_digest(data@),
        r@.len() == 32,
{
    Sha256::digest(data).to_vec()
}

/// Two lowercase hexadecimal digits of a byte.
pub open spec fn hex_byte(b: u8) -> Seq<char> {
    seq![hex_char((b / 16) as int), hex_char((b % 16) as int)]
}

/// Lowercase hexadecimal text of a byte string, two digits a byte (what
/// `{:x}` writes for a digest).
pub open spec fn hex_text(bytes: Seq<u8>) -> Seq<char>
    decreases bytes.len(),
{
    if bytes.len() == 0 {
        seq![]
    } else {
        hex_text(bytes.drop_last()) + hex_byte(bytes.last())
    }
}

/// The stored hash of a password: the hex SHA-256 of its UTF-8 bytes.
pub open spec fn password_hash_of(password: Seq<char>) -> Seq<char> {
    hex_text(sha256_digest(encode_utf8(password)))
}

proof fn lemma_hex_len(bytes: Seq<u8>)
    ensures
        hex_text(bytes).len() == 2 * bytes.len(),
    decreases bytes.len(),
{
    if bytes.len() > 0 {
        lemma_hex_len(bytes.drop_last());
    }
}

/// Why a registration is refused.
#[derive(Clone, Copy, Debug, PartialEq, Eq, Structural)]
pub enum RegisterError {
    EmptyUsername,
    ColonInUsername,
    UsernameTaken,
    EmptyPassword,
    ShortPassword,
    PasswordMismatch,
}

/// The message shown for a refused registration.
pub fn register_error_text(e: RegisterError, username: &str) -> (r: String)
    ensures
        r@ == match e {
            RegisterError::EmptyUsername => "❌ Username cannot be empty!"@,
            RegisterError::ColonInUsername => "❌ Username cannot contain ':' character!"@,
            RegisterError::UsernameTaken => "❌ Username '"@ + username@ + "' already exists!"@,
            RegisterError::EmptyPassword => "❌ Password cannot be empty!"@,
            RegisterError::ShortPassword => "❌ Password must be at least 6 characters!"@,
            RegisterError::PasswordMismatch => "❌ Passwords don't match!"@,
        },
{
    let mut v: Vec<char> = Vec::new();
    match e {
        RegisterError::EmptyUsername => crate::text::extend_str(&mut v, "❌ Username cannot be empty!"),
        RegisterError::ColonInUsername => crate::text::extend_str(&mut v, "❌ Username cannot contain ':' character!"),
        RegisterError::UsernameTaken => {
            crate::text::extend_str(&mut v, "❌ Username '");
            crate::text::extend_str(&mut v, username);
            crate::text::extend_str(&mut v, "' already exists!");
        },
        RegisterError::EmptyPassword => crate::text::extend_str(&mut v, "❌ Password cannot be empty!"),
        RegisterError::ShortPassword => crate::text::extend_str(&mut v, "❌ Password must be at least 6 characters!"),
        RegisterError::PasswordMismatch => crate::text::extend_str(&mut v, "❌ Passwords don't match!"),
    }
    assert(v@ =~= match e {
        RegisterError::EmptyUsername => "❌ Username cannot be empty!"@,
        RegisterError::ColonInUsername => "❌ Username cannot contain ':' character!"@,
        RegisterError::UsernameTaken => "❌ Username '"@ + username@ + "' already exists!"@,
        RegisterError::EmptyPassword => "❌ Password cannot be empty!"@,
        RegisterError::ShortPassword => "❌ Password must be at least 6 characters!"@,
        RegisterError::PasswordMismatch => "❌ Passwords don't match!"@,
    });
    string_from_chars(v.as_slice())
}

/// A registered user.
#[derive(Clone, Debug)]
pub struct User {
    pub username: String,
    password_hash: String,
}

impl User {
    /// The user's name.
    pub closed spec fn name_view(&self) -> Seq<char> {
        self.username@
    }

    /// The stored password hash.
    pub closed spec fn hash_view(&self) -> Seq<char> {
        self.password_hash@
    }

    /// A user with the hash of `password`.
    pub fn new(username: String, password: String) -> (u: User)
        ensures
            u.name_view() == username@,
            u.hash_view() == password_hash_of(password@),
    {
        let h = User::hash_password(password.as_str());
        User { username, password_hash: h }
    }

    /// The lowercase hex SHA-256 of the password's UTF-8 bytes, 64 digits.
    pub fn hash_password(password: &str) -> (r: String)
        ensures
            r@ == password_hash_of(password@),
            r@.len() == 64,
    {
        let bytes = password.as_bytes();
        let digest = sha256(bytes);
        let mut out: Vec<char> = Vec::new();
        let mut i: usize = 0;
        while i < digest.len()
            invariant
                i <= digest@.len(),
                out@ == hex_text(digest@.subrange(0, i as int)),
            decreases digest@.len() - i,
        {
            let b = digest[i];
            out.push(hex_digit((b / 16) as u64));
            out.push(hex_digit((b % 16) as u64));
            proof {
                let sub = digest@.subrange(0, i as int + 1);
                assert(sub.drop_last() =~= digest@.subrange(0, i as int));
                assert(out@ =~= hex_text(sub));
            }
            i = i + 1;
        }
        proof {
            assert(digest@.subrange(0, digest@.len() as int) =~= digest@);
            lemma_hex_len(digest@);
        }
        string_from_chars(out.as_slice())
    }

    /// `true` if `password` hashes to the stored hash.
    pub fn verify_password(&self, password: &str) -> (r: bool)
        ensures
            r == (self.hash_view() == password_hash_of(password@)),
    {
        let h = User::hash_password(password);
        let a = str_chars(self.password_hash.as_str());
        let b = str_chars(h.as_str());
        crate::text::chars_eq(a.as_slice(), b.as_slice())
    }

    /// The user's line in the users file: `name:hash`.
    pub fn record_line(&self) -> (r: String)
        ensures
            r@ == self.name_view() + seq![':'] + self.hash_view(),
    {
        let mut v = str_chars(self.username.as_str());
        v.push(':');
        crate::text::extend_str(&mut v, self.password_hash.as_str());
        string_from_chars(v.as_slice())
    }
}

/// `true` if `c` occurs in `s`.
fn has_char(s: &[char], c: char) -> (r: bool)
    ensures
        r == s@.contains(c),
{
    let mut i: usize = 0;
    while i < s.len()
        invariant
            i <= s@.len(),
            forall|j: int| 0 <= j < i ==> s@[j] != c,
        decreases s@.len() - i,
    {
        if s[i] == c {
            proof {
                assert(s@[i as int] == c);
            }
            return true;
        }
        i = i + 1;
    }
    false
}

/// The text of an input line without surrounding whitespace.
pub fn trim_input(s: &str) -> (r: String)
    ensures
        r@ == trim(s@),
{
    let c = str_chars(s);
    let t = trim_chars(c.as_slice());
    string_from_chars(t.as_slice())
}

/// The check a (trimmed) username must pass before the file is searched:
/// it is not empty and holds no `:`.
pub fn username_error(username: &str) -> (r: Option<RegisterError>)
    ensures
        r == (if username@.len() == 0 {
            Some(RegisterError::EmptyUsername)
        } else if username@.contains(':') {
            Some(RegisterError::ColonInUsername)
        } else {
            None
        }),
{
    let c = str_chars(username);
    if c.len() == 0 {
        Some(RegisterError::EmptyUsername)
    } else if has_char(c.as_slice(), ':') {
        Some(RegisterError::ColonInUsername)
    } else {
        None
    }
}

/// The check a (trimmed) password must pass: not empty, and at least six
/// bytes long.
pub fn password_error(password: &str) -> (r: Option<RegisterError>)
    ensures
        r == (if password@.len() == 0 {
            Some(RegisterError::EmptyPassword)
        } else if encode_utf8(password@).len() < 6 {
            Some(RegisterError::ShortPassword)
        } else {
            None
        }),
{
    if password.is_empty() {
        Some(RegisterError::EmptyPassword)
    } else if password.as_bytes().len() < 6 {
        Some(RegisterError::ShortPassword)
    } else {
        None
    }
}

/// The check the confirmation must pass: it is the password.
pub fn confirm_error(password: &str, confirm: &str) -> (r: Option<RegisterError>)
    ensures
        r == (if password@ == confirm@ {
            None::<RegisterError>
        } else {
            Some(RegisterError::PasswordMismatch)
        }),
{
    let a = str_chars(password);
    let b = str_chars(confirm);
    if crate::text::chars_eq(a.as_slice(), b.as_slice()) {
        None
    } else {
        Some(RegisterError::PasswordMismatch)
    }
}

/// The text before the first `:` of `line` (all of it without one).
pub open spec fn first_field(line: Seq<char>) -> Seq<char> {
    crate::text::split_on(line, ':')[0]
}

/// A users-file line names `username`: its first `:`-separated field is
/// the name.
pub fn line_names_user(line: &str, username: &str) -> (r: bool)
    ensures
        r == (first_field(line@) == username@),
{
    let c = str_chars(line);
    let parts = crate::text::split_char(c.as_slice(), ':');
    proof {
        crate::text::lemma_split_on_nonempty(line@, ':');
    }
    crate::text::chars_eq_str(parts[0].as_slice(), username)
}

/// Some line of the users file names `username`: the name is taken.
pub fn name_taken(lines: &Vec<String>, username: &str) -> (r: bool)
    ensures
        r == exists|i: int| 0 <= i < lines@.len() && first_field(#[trigger] lines@[i]@) == username@,
{
    let mut i: usize = 0;
    while i < lines.len()
        invariant
            i <= lines@.len(),
            forall|j: int| 0 <= j < i ==> first_field(#[trigger] lines@[j]@) != username@,
        decreases lines@.len() - i,
    {
        if line_names_user(lines[i].as_str(), username) {
            return true;
        }
        i = i + 1;
    }
    false
}

/// The user a users-file line records for `username`: the line has exactly
/// two `:`-separated fields and the first is the name; the second is the
/// stored hash.
pub fn parse_user_line(line: &str, username: &str) -> (r: Option<User>)
    ensures
        ({
            let f = crate::text::split_on(line@, ':');
            match r {
                Some(u) => f.len() == 2 && f[0] == username@ && u.name_view() == username@ && u.hash_view() == f[1],
                None => !(f.len() == 2 && f[0] == username@),
            }
        }),
{
    let c = str_chars(line);
    let parts = crate::text::split_char(c.as_slice(), ':');
    if parts.len() == 2 && crate::text::chars_eq_str(parts[0].as_slice(), username) {
        let name = crate::text::str_string(username);
        let hash = string_from_chars(parts[1].as_slice());
        Some(User { username: name, password_hash: hash })
    } else {
        None
    }
}

/// The choice typed at the welcome menu: 1, 2, or 3, and 0 for anything
/// else.
pub fn menu_choice(input: &str) -> (r: i32)
    ensures
        r == match parse_i32_spec(trim(input@)) {
            Some(n) => if 1 <= n <= 3 {
                n as i32
            } else {
                0
            },
            None => 0,
        },
{
    let c = str_chars(input);
    let t = trim_chars(c.as_slice());
    match parse_i32(t.as_slice()) {
        Some(n) => if 1 <= n && n <= 3 {
            n
        } else {
            0
        },
        None => 0,
    }
}

/// The session: who is logged in, if anyone.
pub struct AuthSystem {
    current_user: Option<User>,
}

impl AuthSystem {
    /// The logged-in user.
    pub closed spec fn user_view(&self) -> Option<User> {
        self.current_user
    }

    /// A session with nobody logged in.
    pub fn new() -> (a: AuthSystem)
        ensures
            a.user_view() is None,
    {
        AuthSystem { current_user: None }
    }

    /// Finishes a login: `found` is the user the file records under the
    /// name typed, if any. Succeeds, and logs that user in, exactly when
    /// there is one and `password` matches its hash; otherwise the session
    /// is unchanged.
    pub fn complete_login(&mut self, found: Option<User>, password: &str) -> (r: bool)
        ensures
            r == (found matches Some(u) && u.hash_view() == password_hash_of(password@)),
            r ==> final(self).user_view() == found,
            !r ==> final(self).user_view() == old(self).user_view(),
    {
        match found {
            Some(u) => {
                if u.verify_password(password) {
                    self.current_user = Some(u);
                    true
                } else {
                    false
                }
            },
            None => false,
        }
    }

    /// `true` while someone is logged in.
    pub fn is_logged_in(&self) -> (r: bool)
        ensures
            r == (self.user_view() is Some),
    {
        self.current_user.is_some()
    }

    /// The logged-in user.
    pub fn get_current_user(&self) -> (r: Option<&User>)
        ensures
            match self.user_view() {
                Some(u) => r == Some(&u),
                None => r is None,
            },
    {
        self.current_user.as_ref()
    }

    /// Ends the session.
    pub fn logout(&mut self)
        ensures
            final(self).user_view() is None,
    {
        self.current_user = None;
    }
}

impl Default for AuthSystem {
    /// A session with nobody logged in.
    fn default() -> (a: AuthSystem)
        ensures
            a.user_view() is None,
    {
        AuthSystem::new()
    }
}

} // verus!
