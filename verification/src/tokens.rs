//! Scoped bearer tokens kept as one file per token under the tokens
//! directory, indexed by secret and by id.

use rand::RngCore;
use vstd::prelude::*;

use crate::clock::now_ms;
use crate::paths::{join, path_join};
use crate::sorted_map::SortedMap;
use crate::text::{push_char, seq_lt};

verus! {

/// What a token may do. `Admin` implies every other scope.
#[derive(Debug, Clone, Copy, PartialEq, Eq, Structural, PartialOrd, Ord, Hash)]
pub enum Scope {
    Read,
    Control,
    Admin,
}

/// The lowercase name under which a scope is written.
pub open spec fn scope_name(s: Scope) -> Seq<char> {
    match s {
        Scope::Read => "read"@,
        Scope::Control => "control"@,
        Scope::Admin => "admin"@,
    }
}

impl Scope {
    pub fn as_str(self) -> (r: &'static str)
        ensures
            r@ == scope_name(self),
    {
        match self {
            Scope::Read => "read",
            Scope::Control => "control",
            Scope::Admin => "admin",
        }
    }
}

/// A list of scopes grants `required` if it holds `Admin` or `required`.
pub open spec fn grants(scopes: Seq<Scope>, required: Scope) -> bool {
    scopes.contains(Scope::Admin) || scopes.contains(required)
}

/// One issued token.
#[derive(Debug, Clone, PartialEq, Eq)]
pub struct TokenRecord {
    pub id: String,
    pub secret: String,
    pub scopes: Vec<Scope>,
    pub created_ms: i64,
}

/// A token record as plain values.
pub struct TokenView {
    pub id: Seq<char>,
    pub secret: Seq<char>,
    pub scopes: Seq<Scope>,
    pub created_ms: i64,
}

impl View for TokenRecord {
    type V = TokenView;

    open spec fn view(&self) -> TokenView {
        TokenView {
            id: self.id@,
            secret: self.secret@,
            scopes: self.scopes@,
            created_ms: self.created_ms,
        }
    }
}

fn has_scope(scopes: &Vec<Scope>, s: Scope) -> (r: bool)
    ensures
        r == scopes@.contains(s),
{
    let n = scopes.len();
    let mut i: usize = 0;
    while i < n
        invariant
            n == scopes@.len(),
            i <= n,
            forall|j: int| 0 <= j < i ==> scopes@[j] != s,
        decreases n - i,
    {
        if scopes[i] == s {
            assert(scopes@[i as int] == s);
            return true;
        }
        i = i + 1;
    }
    false
}

fn copy_scopes(scopes: &Vec<Scope>) -> (r: Vec<Scope>)
    ensures
        r@ == scopes@,
{
    let mut out: Vec<Scope> = Vec::new();
    let n = scopes.len();
    let mut i: usize = 0;
    while i < n
        invariant
            n == scopes@.len(),
            i <= n,
            out@ == scopes@.subrange(0, i as int),
        decreases n - i,
    {
        out.push(scopes[i]);
        assert(out@ =~= scopes@.subrange(0, i + 1));
        i = i + 1;
    }
    assert(out@ =~= scopes@);
    out
}

impl TokenRecord {
    pub fn allows(&self, required: Scope) -> (r: bool)
        ensures
            r == grants(self.scopes@, required),
    {
        has_scope(&self.scopes, Scope::Admin) || has_scope(&self.scopes, required)
    }

    /// A field-for-field copy.
    pub(crate) fn duplicate(&self) -> (r: TokenRecord)
        ensures
            r@ == self@,
    {
        TokenRecord {
            id: self.id.clone(),
            secret: self.secret.clone(),
            scopes: copy_scopes(&self.scopes),
            created_ms: self.created_ms,
        }
    }
}

/// Why a presented secret was not accepted.
#[derive(Debug, Clone, Copy, PartialEq, Eq, Structural)]
pub enum AuthFail {
    Unauthorized,
    Forbidden,
}

/// Failures of the token store.
#[derive(Debug)]
pub enum TokenError {
    Io(String),
    WorldReadable { path: String },
    Parse { path: String, message: String },
    NotFound(String),
    Exists(String),
    BadId(String),
}

/// The outcome of presenting `secret` for `required` to a store whose
/// tokens, keyed by secret, are `secrets`.
pub open spec fn authorize_outcome(
    secrets: Map<Seq<char>, TokenView>,
    secret: Seq<char>,
    required: Scope,
) -> Result<TokenView, AuthFail> {
    if !secrets.contains_key(secret) {
        Err(AuthFail::Unauthorized)
    } else if grants(secrets[secret].scopes, required) {
        Ok(secrets[secret])
    } else {
        Err(AuthFail::Forbidden)
    }
}

pub open spec fn is_id_char(c: char) -> bool {
    ||| ('0' <= c && c <= '9')
    ||| ('a' <= c && c <= 'z')
    ||| ('A' <= c && c <= 'Z')
    ||| c == '-'
    ||| c == '_'
}

/// A token id is non-empty ASCII letters, digits, `-` and `_`.
pub open spec fn valid_id(id: Seq<char>) -> bool {
    id.len() > 0 && forall|i: int| 0 <= i < id.len() ==> is_id_char(#[trigger] id[i])
}

pub fn validate_id(id: &str) -> (r: Result<(), TokenError>)
    ensures
        r is Ok <==> valid_id(id@),
        r matches Err(e) ==> e matches TokenError::BadId(s) && s@ == id@,
{
    let n = id.unicode_len();
    let mut ok = n > 0;
    let mut i: usize = 0;
    while i < n
        invariant
            n == id@.len(),
            i <= n,
            ok == (n > 0 && forall|j: int| 0 <= j < i ==> is_id_char(#[trigger] id@[j])),
        decreases n - i,
    {
        let c = id.get_char(i);
        let good = ('0' <= c && c <= '9') || ('a' <= c && c <= 'z') || ('A' <= c && c <= 'Z')
            || c == '-' || c == '_';
        if !good {
            ok = false;
        }
        i = i + 1;
    }
    if ok {
        Ok(())
    } else {
        Err(TokenError::BadId(String::from_str(id)))
    }
}

pub open spec fn hex_digits() -> Seq<char> {
    seq!['0', '1', '2', '3', '4', '5', '6', '7', '8', '9', 'a', 'b', 'c', 'd', 'e', 'f']
}

/// Lowercase hex, two digits per byte, high nibble first.
pub open spec fn hex_seq(bytes: Seq<u8>) -> Seq<char> {
    Seq::new(
        2 * bytes.len(),
        |i: int|
            hex_digits()[if i % 2 == 0 {
                (bytes[i / 2] / 16) as int
            } else {
                (bytes[i / 2] % 16) as int
            }],
    )
}

fn hex_digit(n: u8) -> (c: char)
    requires
        n < 16,
    ensures
        c == hex_digits()[n as int],
{
    let table: [char; 16] = ['0', '1', '2', '3', '4', '5', '6', '7', '8', '9', 'a', 'b', 'c',
        'd', 'e', 'f'];
    assert(table@ =~= hex_digits());
    table[n as usize]
}

/// Lowercase hexadecimal encoding of `bytes`.
pub fn hex(bytes: &[u8]) -> (r: String)
    ensures
        r@ == hex_seq(bytes@),
{
    let n = bytes.len();
    let mut out = String::new();
    let mut i: usize = 0;
    while i < n
        invariant
            n == bytes@.len(),
            i <= n,
            out@.len() == 2 * i,
            forall|j: int| 0 <= j < 2 * i ==> out@[j] == #[trigger] hex_seq(bytes@)[j],
        decreases n - i,
    {
        let b = bytes[i];
        push_char(&mut out, hex_digit(b / 16));
        push_char(&mut out, hex_digit(b % 16));
        proof {
            assert forall|j: int| 0 <= j < 2 * (i + 1) implies out@[j] == #[trigger] hex_seq(
                bytes@,
            )[j] by {
                if j == 2 * i {
                    assert(j / 2 == i && j % 2 == 0);
                } else if j == 2 * i + 1 {
                    assert(j / 2 == i && j % 2 == 1);
                }
            }
        }
        i = i + 1;
    }
    assert(out@ =~= hex_seq(bytes@));
    out
}

/// A token secret: 64 lowercase hexadecimal digits.
pub open spec fn secret_shape(s: Seq<char>) -> bool {
    s.len() == 64 && forall|i: int| 0 <= i < s.len() ==> hex_digits().contains(#[trigger] s[i])
}

/// Wraps `RngCore::fill_bytes` on `rand::thread_rng()`: overwrites every
/// byte of `buf` with bytes from the thread-local CSPRNG; the length stays.
#[verifier::external_body]
fn fill_random(buf: &mut Vec<u8>)
    ensures
        final(buf)@.len() == old(buf)@.len(),
{
    rand::thread_rng().fill_bytes(buf.as_mut_slice());
}

/// Bytes of randomness in a token secret.
pub const SECRET_BYTES: usize = 32;

/// `SECRET_BYTES` random bytes.
fn random_bytes() -> (r: Vec<u8>)
    ensures
        r@.len() == SECRET_BYTES,
{
    let mut bytes: Vec<u8> = Vec::new();
    let mut i: usize = 0;
    while i < SECRET_BYTES
        invariant
            i <= SECRET_BYTES,
            bytes@.len() == i,
        decreases SECRET_BYTES - i,
    {
        bytes.push(0);
        i = i + 1;
    }
    fill_random(&mut bytes);
    bytes
}

/// A fresh record: random 32-byte secret in hex, stamped with the current time.
fn new_record(id: &str, scopes: Vec<Scope>) -> (r: TokenRecord)
    ensures
        r.id@ == id@,
        r.scopes@ == scopes@,
        secret_shape(r.secret@),
{
    let bytes = random_bytes();
    let secret = hex(bytes.as_slice());
    proof {
        assert forall|i: int| 0 <= i < secret@.len() implies hex_digits().contains(
            #[trigger] secret@[i],
        ) by {
            let k = if i % 2 == 0 {
                (bytes@[i / 2] / 16) as int
            } else {
                (bytes@[i / 2] % 16) as int
            };
            assert(secret@[i] == hex_digits()[k]);
        }
    }
    TokenRecord { id: String::from_str(id), secret, scopes, created_ms: now_ms() }
}

/// The file that holds token `id` inside `dir`: `dir/<id>.toml`.
pub open spec fn record_file(dir: Seq<char>, id: Seq<char>) -> Seq<char> {
    path_join(dir, id + ".toml"@)
}

pub fn record_path(dir: &str, id: &str) -> (r: String)
    ensures
        r@ == record_file(dir@, id@),
{
    let mut name = String::from_str(id);
    name.append(".toml");
    join(dir, name.as_str())
}

/// Each token filed by secret is the one filed under its id, and the
/// other way round: the two indexes hold the same records.
pub open spec fn consistent(secrets: Map<Seq<char>, TokenView>, ids: Map<Seq<char>, TokenView>) -> bool {
    &&& forall|k: Seq<char>| #[trigger] secrets.contains_key(k) ==> ids.contains_key(secrets[k].id) && ids[secrets[k].id] == secrets[k]
    &&& forall|d: Seq<char>| #[trigger] ids.contains_key(d) ==> secrets.contains_key(ids[d].secret) && secrets[ids[d].secret] == ids[d]
}

/// Token records indexed by secret and by id.
pub struct TokenStore {
    dir: String,
    by_secret: SortedMap<TokenRecord>,
    by_id: SortedMap<TokenRecord>,
}

/// Records filed one after another by secret.
pub open spec fn secret_index(records: Seq<TokenView>) -> Map<Seq<char>, TokenView>
    decreases records.len(),
{
    if records.len() == 0 {
        Map::empty()
    } else {
        secret_index(records.drop_last()).insert(records.last().secret, records.last())
    }
}

/// Records filed one after another by id.
pub open spec fn id_index(records: Seq<TokenView>) -> Map<Seq<char>, TokenView>
    decreases records.len(),
{
    if records.len() == 0 {
        Map::empty()
    } else {
        id_index(records.drop_last()).insert(records.last().id, records.last())
    }
}

/// Two well-formed indexes whose entries are filed under their own secret
/// (resp. id).
pub closed spec fn indexed(by_secret: SortedMap<TokenRecord>, by_id: SortedMap<TokenRecord>) -> bool {
    &&& by_secret.wf()
    &&& by_id.wf()
    &&& forall|k: Seq<char>|
        #[trigger] by_secret.map().contains_key(k) ==> by_secret.map()[k].secret == k
    &&& forall|k: Seq<char>| #[trigger] by_id.map().contains_key(k) ==> by_id.map()[k].id == k
}

impl TokenStore {
    /// Tokens by secret.
    pub closed spec fn secrets(&self) -> Map<Seq<char>, TokenView> {
        self.by_secret.map()
    }

    /// Tokens by id.
    pub closed spec fn ids(&self) -> Map<Seq<char>, TokenView> {
        self.by_id.map()
    }

    /// The directory the token files live in.
    pub closed spec fn dir(&self) -> Seq<char> {
        self.dir@
    }

    /// Both indexes are well formed and each entry is filed under its own
    /// secret (resp. id).
    #[verifier::type_invariant]
    closed spec fn wf(&self) -> bool {
        indexed(self.by_secret, self.by_id)
    }

    /// Moves the directory and both indexes out, leaving an empty store.
    fn take_parts(&mut self) -> (r: (String, SortedMap<TokenRecord>, SortedMap<TokenRecord>))
        ensures
            r.0@ == old(self).dir(),
            r.1.map() == old(self).secrets(),
            r.2.map() == old(self).ids(),
            indexed(r.1, r.2),
    {
        proof {
            use_type_invariant(&*self);
        }
        let mut dir = String::new();
        let mut by_secret = SortedMap::new();
        let mut by_id = SortedMap::new();
        std::mem::swap(&mut dir, &mut self.dir);
        std::mem::swap(&mut by_secret, &mut self.by_secret);
        std::mem::swap(&mut by_id, &mut self.by_id);
        (dir, by_secret, by_id)
    }

    /// An empty store over `dir`.
    pub fn new(dir: String) -> (r: Self)
        ensures
            r.secrets() == Map::<Seq<char>, TokenView>::empty(),
            r.ids() == Map::<Seq<char>, TokenView>::empty(),
            r.dir() == dir@,
            consistent(r.secrets(), r.ids()),
    {
        TokenStore { dir, by_secret: SortedMap::new(), by_id: SortedMap::new() }
    }

    /// A store over `dir` holding `records`, filed in the order given (a
    /// later record replaces an earlier one under the same secret or id).
    pub fn from_records(dir: String, records: Vec<TokenRecord>) -> (r: Self)
        ensures
            r.dir() == dir@,
            r.secrets() == secret_index(records@.map_values(|t: TokenRecord| t@)),
            r.ids() == id_index(records@.map_values(|t: TokenRecord| t@)),
    {
        let ghost views = records@.map_values(|t: TokenRecord| t@);
        let mut store = TokenStore::new(dir);
        let n = records.len();
        let mut i: usize = 0;
        while i < n
            invariant
                n == records@.len(),
                i <= n,
                views == records@.map_values(|t: TokenRecord| t@),
                store.dir() == dir@,
                store.secrets() == secret_index(views.take(i as int)),
                store.ids() == id_index(views.take(i as int)),
            decreases n - i,
        {
            let rec = records[i].duplicate();
            store.insert(rec);
            assert(views.take(i + 1).drop_last() =~= views.take(i as int));
            i = i + 1;
        }
        assert(views.take(n as int) =~= views);
        store
    }

    /// Files `rec` under its secret and under its id.
    pub fn insert(&mut self, rec: TokenRecord)
        ensures
            final(self).secrets() == old(self).secrets().insert(rec.secret@, rec@),
            final(self).ids() == old(self).ids().insert(rec.id@, rec@),
            final(self).dir() == old(self).dir(),
    {
        let (dir, mut by_secret, mut by_id) = self.take_parts();
        let copy = rec.duplicate();
        by_secret.insert(rec.secret.clone(), copy);
        let id = rec.id.clone();
        by_id.insert(id, rec);
        *self = TokenStore { dir, by_secret, by_id };
    }

    pub fn get(&self, secret: &str) -> (r: Option<&TokenRecord>)
        ensures
            r is Some <==> self.secrets().contains_key(secret@),
            r matches Some(rec) ==> rec@ == self.secrets()[secret@] && rec.secret@ == secret@,
    {
        proof {
            use_type_invariant(self);
        }
        self.by_secret.get(secret)
    }

    pub fn authorize(&self, secret: &str, required: Scope) -> (r: Result<&TokenRecord, AuthFail>)
        ensures
            match authorize_outcome(self.secrets(), secret@, required) {
                Ok(v) => r matches Ok(rec) && rec@ == v,
                Err(e) => r == Err::<&TokenRecord, AuthFail>(e),
            },
            r matches Ok(rec) ==> rec.secret@ == secret@,
    {
        proof {
            use_type_invariant(self);
        }
        match self.by_secret.get(secret) {
            None => Err(AuthFail::Unauthorized),
            Some(rec) => {
                if rec.allows(required) {
                    Ok(rec)
                } else {
                    Err(AuthFail::Forbidden)
                }
            },
        }
    }

    /// Every token once, in ascending id order.
    pub fn list(&self) -> (r: Vec<&TokenRecord>)
        ensures
            forall|i: int|
                0 <= i < r.len() ==> #[trigger] self.ids().contains_key(r[i].id@) && self.ids()[r[i].id@]
                    == r[i]@,
            forall|k: Seq<char>|
                #[trigger] self.ids().contains_key(k) ==> exists|i: int| 0 <= i < r.len() && r[i].id@ == k,
            forall|i: int, j: int| 0 <= i < j < r.len() ==> seq_lt(#[trigger] r[i].id@, #[trigger] r[j].id@),
    {
        proof {
            use_type_invariant(self);
        }
        let n = self.by_id.len();
        let mut out: Vec<&TokenRecord> = Vec::new();
        let mut i: usize = 0;
        proof {
            self.by_id.lemma_keys();
        }
        while i < n
            invariant
                n == self.by_id.size(),
                i <= n,
                self.by_id.wf(),
                forall|k: Seq<char>| #[trigger] self.by_id.map().contains_key(k) ==> self.by_id.map()[k].id == k,
                out.len() == i,
                forall|j: int|
                    #![trigger out[j]]
                    0 <= j < i ==> out[j]@ == self.by_id.val_at(j) && out[j].id@
                        == self.by_id.key_at(j),
            decreases n - i,
        {
            let (_k, rec) = self.by_id.entry(i);
            proof {
                self.by_id.lemma_entry(i as int);
            }
            out.push(rec);
            i = i + 1;
        }
        proof {
            self.by_id.lemma_keys();
            assert forall|k: Seq<char>| #[trigger] self.ids().contains_key(k) implies exists|i: int|
                0 <= i < out.len() && out[i].id@ == k by {
                let i = choose|i: int| 0 <= i < self.by_id.size() && #[trigger] self.by_id.key_at(i) == k;
                assert(out[i].id@ == k);
            }
            assert forall|i: int, j: int| 0 <= i < j < out.len() implies seq_lt(
                #[trigger] out[i].id@,
                #[trigger] out[j].id@,
            ) by {
                assert(seq_lt(self.by_id.key_at(i), self.by_id.key_at(j)));
            }
        }
        out
    }

    /// Issues a token `id` with `scopes`: a fresh record filed under its
    /// secret and its id, and returned for the caller to write to
    /// `record_path(dir, id)`. A refused id leaves the store as it was and
    /// mints nothing.
    pub fn create(&mut self, id: &str, scopes: Vec<Scope>) -> (r: Result<TokenRecord, TokenError>)
        ensures
            final(self).dir() == old(self).dir(),
            !valid_id(id@) ==> (r matches Err(TokenError::BadId(s)) && s@ == id@),
            valid_id(id@) && old(self).ids().contains_key(id@) ==> (r matches Err(
                TokenError::Exists(s),
            ) && s@ == id@),
            valid_id(id@) && !old(self).ids().contains_key(id@) ==> r is Ok,
            r is Err ==> final(self).secrets() == old(self).secrets() && final(self).ids() == old(
                self,
            ).ids(),
            r matches Ok(rec) ==> {
                &&& rec.id@ == id@
                &&& rec.scopes@ == scopes@
                &&& secret_shape(rec.secret@)
                &&& final(self).secrets() == old(self).secrets().insert(rec.secret@, rec@)
                &&& final(self).ids() == old(self).ids().insert(id@, rec@)
                &&& consistent(old(self).secrets(), old(self).ids()) && !old(self).secrets().contains_key(rec.secret@)
                    ==> consistent(final(self).secrets(), final(self).ids())
            },
    {
        match validate_id(id) {
            Err(e) => return Err(e),
            Ok(()) => {},
        }
        proof {
            use_type_invariant(&*self);
        }
        if self.by_id.contains_key(id) {
            return Err(TokenError::Exists(String::from_str(id)));
        }
        let rec = new_record(id, scopes);
        let out = rec.duplicate();
        self.insert(rec);
        Ok(out)
    }

    /// Withdraws token `id` from both indexes and returns the path of its
    /// file, `record_path(dir, id)`, for the caller to delete. An unknown id
    /// leaves the store as it was.
    pub fn revoke(&mut self, id: &str) -> (r: Result<String, TokenError>)
        ensures
            final(self).dir() == old(self).dir(),
            !old(self).ids().contains_key(id@) ==> {
                &&& r matches Err(TokenError::NotFound(s)) && s@ == id@
                &&& final(self).secrets() == old(self).secrets()
                &&& final(self).ids() == old(self).ids()
            },
            old(self).ids().contains_key(id@) ==> {
                &&& r matches Ok(p) && p@ == record_file(old(self).dir(), id@)
                &&& final(self).ids() == old(self).ids().remove(id@)
                &&& final(self).secrets() == old(self).secrets().remove(
                    old(self).ids()[id@].secret,
                )
                &&& consistent(old(self).secrets(), old(self).ids()) ==> consistent(final(self).secrets(), final(self).ids())
            },
    {
        proof {
            use_type_invariant(&*self);
        }
        if !self.by_id.contains_key(id) {
            return Err(TokenError::NotFound(String::from_str(id)));
        }
        let (dir, mut by_secret, mut by_id) = self.take_parts();
        let rec = match by_id.remove(id) {
            None => {
                *self = TokenStore { dir, by_secret, by_id };
                return Err(TokenError::NotFound(String::from_str(id)));
            },
            Some(rec) => rec,
        };
        by_secret.remove(rec.secret.as_str());
        proof {
            assert forall|k: Seq<char>| #[trigger] by_id.map().contains_key(k) implies by_id.map()[k].id == k by {
                assert(old(self).ids().contains_key(k));
            }
            assert forall|k: Seq<char>| #[trigger] by_secret.map().contains_key(k) implies by_secret.map()[k].secret == k by {
                assert(old(self).secrets().contains_key(k));
            }
        }
        let path = record_path(dir.as_str(), id);
        *self = TokenStore { dir, by_secret, by_id };
        Ok(path)
    }

    /// Replaces the secret of token `id`, keeping its scopes: the old secret
    /// stops working and the new record is filed under its secret and the
    /// id, and returned for the caller to write to `record_path(dir, id)`.
    /// An unknown id leaves the store as it was and mints nothing.
    pub fn rotate(&mut self, id: &str) -> (r: Result<TokenRecord, TokenError>)
        ensures
            final(self).dir() == old(self).dir(),
            !old(self).ids().contains_key(id@) ==> {
                &&& r matches Err(TokenError::NotFound(s)) && s@ == id@
                &&& final(self).secrets() == old(self).secrets()
                &&& final(self).ids() == old(self).ids()
            },
            old(self).ids().contains_key(id@) ==> {
                let prev = old(self).ids()[id@];
                &&& r matches Ok(rec)
                &&& rec.id@ == id@
                &&& rec.scopes@ == prev.scopes
                &&& secret_shape(rec.secret@)
                &&& final(self).secrets() == old(self).secrets().remove(prev.secret).insert(rec.secret@, rec@)
                &&& final(self).ids() == old(self).ids().insert(id@, rec@)
                &&& consistent(old(self).secrets(), old(self).ids()) && !old(self).secrets().contains_key(rec.secret@)
                    ==> consistent(final(self).secrets(), final(self).ids())
            },
    {
        proof {
            use_type_invariant(&*self);
        }
        let prev = match self.by_id.get(id) {
            None => return Err(TokenError::NotFound(String::from_str(id))),
            Some(rec) => rec.duplicate(),
        };
        let (dir, mut by_secret, by_id) = self.take_parts();
        by_secret.remove(prev.secret.as_str());
        proof {
            assert forall|k: Seq<char>| #[trigger] by_secret.map().contains_key(k) implies by_secret.map()[k].secret == k by {
                assert(old(self).secrets().contains_key(k));
            }
        }
        *self = TokenStore { dir, by_secret, by_id };
        let rec = new_record(id, prev.scopes);
        let out = rec.duplicate();
        self.insert(rec);
        Ok(out)
    }
}

/// Permission bits that let group or others read a file.
pub const SHARED_READ_BITS: u32 = 0o044;

/// A token file with permission bits `mode` is readable beyond its owner
/// (token files must be 0600).
pub fn world_readable(mode: u32) -> (r: bool)
    ensures
        r == (mode & SHARED_READ_BITS != 0),
{
    mode & SHARED_READ_BITS != 0
}

/// The scopes a new token gets: those asked for, or `read` alone when none
/// were named.
pub fn requested_scopes(scopes: Vec<Scope>) -> (r: Vec<Scope>)
    ensures
        scopes@.len() == 0 ==> r@ == seq![Scope::Read],
        scopes@.len() > 0 ==> r@ == scopes@,
{
    if scopes.len() == 0 {
        let mut v = Vec::new();
        v.push(Scope::Read);
        assert(v@ =~= seq![Scope::Read]);
        v
    } else {
        scopes
    }
}

/// Scope names joined by `,`.
pub open spec fn scopes_text(scopes: Seq<Scope>) -> Seq<char>
    decreases scopes.len(),
{
    if scopes.len() == 0 {
        Seq::empty()
    } else if scopes.len() == 1 {
        scope_name(scopes[0])
    } else {
        scopes_text(scopes.drop_last()) + seq![','] + scope_name(scopes.last())
    }
}

pub fn scopes_csv(scopes: &Vec<Scope>) -> (r: String)
    ensures
        r@ == scopes_text(scopes@),
{
    let n = scopes.len();
    let mut out = String::new();
    let mut i: usize = 0;
    while i < n
        invariant
            n == scopes@.len(),
            i <= n,
            out@ == scopes_text(scopes@.subrange(0, i as int)),
        decreases n - i,
    {
        if i > 0 {
            push_char(&mut out, ',');
        }
        out.append(scopes[i].as_str());
        proof {
            let s = scopes@.subrange(0, i + 1);
            assert(s.drop_last() =~= scopes@.subrange(0, i as int));
            if i == 0 {
                assert(out@ =~= scopes_text(s));
            }
        }
        i = i + 1;
    }
    assert(scopes@.subrange(0, n as int) =~= scopes@);
    out
}

/// `Admin` satisfies every scope requirement.
pub proof fn law_admin_satisfies_every_scope(scopes: Seq<Scope>, required: Scope)
    requires
        scopes.contains(Scope::Admin),
    ensures
        grants(scopes, required),
{
}

/// A token just filed under its secret is accepted exactly for the scopes
/// it grants, and answers with itself.
pub proof fn law_issued_secret_authorizes(
    before: Map<Seq<char>, TokenView>,
    rec: TokenView,
    required: Scope,
)
    ensures
        authorize_outcome(before.insert(rec.secret, rec), rec.secret, required) == if grants(
            rec.scopes,
            required,
        ) {
            Ok::<TokenView, AuthFail>(rec)
        } else {
            Err(AuthFail::Forbidden)
        },
{
}

/// A secret withdrawn from the index is refused as unknown, whatever scope
/// is asked for.
pub proof fn law_withdrawn_secret_is_unauthorized(
    before: Map<Seq<char>, TokenView>,
    secret: Seq<char>,
    required: Scope,
)
    ensures
        authorize_outcome(before.remove(secret), secret, required) == Err::<TokenView, AuthFail>(
            AuthFail::Unauthorized,
        ),
{
}

/// After a rotation whose new secret differs from the old one, the old
/// secret is refused and the new one carries the old scopes.
pub proof fn law_rotation_retires_old_secret(
    before: Map<Seq<char>, TokenView>,
    prev: TokenView,
    next: TokenView,
    required: Scope,
)
    requires
        next.secret != prev.secret,
        next.scopes == prev.scopes,
    ensures
        authorize_outcome(before.remove(prev.secret).insert(next.secret, next), prev.secret, required)
            == Err::<TokenView, AuthFail>(AuthFail::Unauthorized),
        authorize_outcome(before.remove(prev.secret).insert(next.secret, next), next.secret, required)
            == if grants(prev.scopes, required) {
            Ok::<TokenView, AuthFail>(next)
        } else {
            Err(AuthFail::Forbidden)
        },
{
}

/// A token survives a reload: a store rebuilt from token records (as
/// `from_records` rebuilds it) holds record `i` under its secret, and answers
/// for that secret exactly as a store that was just given it, provided no
/// later record reuses its secret; it also lists it under its id provided no
/// later record reuses its id.
pub proof fn law_reload_keeps_token(records: Seq<TokenView>, i: int, required: Scope)
    requires
        0 <= i < records.len(),
        forall|j: int| i < j < records.len() ==> (#[trigger] records[j]).secret != records[i].secret,
    ensures
        secret_index(records).contains_key(records[i].secret),
        secret_index(records)[records[i].secret] == records[i],
        authorize_outcome(secret_index(records), records[i].secret, required) == if grants(
            records[i].scopes,
            required,
        ) {
            Ok::<TokenView, AuthFail>(records[i])
        } else {
            Err(AuthFail::Forbidden)
        },
        (forall|j: int| i < j < records.len() ==> (#[trigger] records[j]).id != records[i].id) ==> id_index(
            records,
        ).contains_key(records[i].id) && id_index(records)[records[i].id] == records[i],
{
    lemma_index_keeps(records, i);
}

proof fn lemma_index_keeps(records: Seq<TokenView>, i: int)
    requires
        0 <= i < records.len(),
        forall|j: int| i < j < records.len() ==> (#[trigger] records[j]).secret != records[i].secret,
    ensures
        secret_index(records).contains_key(records[i].secret),
        secret_index(records)[records[i].secret] == records[i],
        (forall|j: int| i < j < records.len() ==> (#[trigger] records[j]).id != records[i].id) ==> id_index(
            records,
        ).contains_key(records[i].id) && id_index(records)[records[i].id] == records[i],
    decreases records.len(),
{
    let n = records.len();
    if i < n - 1 {
        let rest = records.drop_last();
        assert forall|j: int| i < j < rest.len() implies (#[trigger] rest[j]).secret != rest[i].secret by {
            assert(rest[j] == records[j]);
        }
        lemma_index_keeps(rest, i);
        assert(records[n - 1].secret != records[i].secret);
        if forall|j: int| i < j < records.len() ==> (#[trigger] records[j]).id != records[i].id {
            assert forall|j: int| i < j < rest.len() implies (#[trigger] rest[j]).id != rest[i].id by {
                assert(rest[j] == records[j]);
            }
            assert(records[n - 1].id != records[i].id);
        }
    }
}

/// In indexes that agree (as a new store's do, and as `create`, `rotate`
/// and `revoke` keep them when the fresh secret is new), a token found by
/// its secret is the one listed under its id.
pub proof fn law_found_token_is_listed(
    secrets: Map<Seq<char>, TokenView>,
    ids: Map<Seq<char>, TokenView>,
    secret: Seq<char>,
)
    requires
        consistent(secrets, ids),
        secrets.contains_key(secret),
    ensures
        ids.contains_key(secrets[secret].id),
        ids[secrets[secret].id] == secrets[secret],
{
}

} // verus!
