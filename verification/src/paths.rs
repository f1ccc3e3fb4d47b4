//! Filesystem layout. Production uses fixed absolute paths; with a prefix
//! the same tree is rooted under that directory.

use vstd::prelude::*;

use crate::text::push_char;

verus! {

/// `base.join(part)` for a Unix path: an absolute `part` replaces `base`;
/// otherwise one `/` separates them unless `base` is empty or already ends
/// with `/`.
pub open spec fn path_join(base: Seq<char>, part: Seq<char>) -> Seq<char> {
    if part.len() > 0 && part[0] == '/' {
        part
    } else if base.len() > 0 && base.last() != '/' {
        base + seq!['/'] + part
    } else {
        base + part
    }
}

/// The absolute form of a path relative to the filesystem root.
pub open spec fn rooted(rel: Seq<char>) -> Seq<char> {
    seq!['/'] + rel
}

pub fn join(base: &str, part: &str) -> (r: String)
    ensures
        r@ == path_join(base@, part@),
{
    let m = part.unicode_len();
    if m > 0 && part.get_char(0) == '/' {
        return String::from_str(part);
    }
    let n = base.unicode_len();
    let mut out = String::from_str(base);
    if n > 0 && base.get_char(n - 1) != '/' {
        push_char(&mut out, '/');
    }
    out.append(part);
    out
}

pub open spec fn rel_config() -> Seq<char> {
    "etc/homeai/config.toml"@
}

pub open spec fn rel_house() -> Seq<char> {
    "etc/homeai/house.toml"@
}

pub open spec fn rel_models() -> Seq<char> {
    "etc/homeai/models.toml"@
}

pub open spec fn rel_tls_dir() -> Seq<char> {
    "etc/homeai/tls"@
}

pub open spec fn rel_db() -> Seq<char> {
    "var/lib/homeai/home.db"@
}

pub open spec fn rel_log_dir() -> Seq<char> {
    "var/log/homeai"@
}

pub open spec fn rel_updates() -> Seq<char> {
    "var/lib/homeai/updates"@
}

/// Resolved filesystem layout.
#[derive(Debug, Clone)]
pub struct Paths {
    pub prefix: Option<String>,
    pub config: String,
    pub house: String,
    pub models: String,
    pub tls_dir: String,
    pub db: String,
    pub log_dir: String,
    pub updates: String,
}

/// Every path of the layout is `place(rel)` for its relative tree position.
pub open spec fn laid_out(p: Paths, place: spec_fn(Seq<char>) -> Seq<char>) -> bool {
    &&& p.config@ == place(rel_config())
    &&& p.house@ == place(rel_house())
    &&& p.models@ == place(rel_models())
    &&& p.tls_dir@ == place(rel_tls_dir())
    &&& p.db@ == place(rel_db())
    &&& p.log_dir@ == place(rel_log_dir())
    &&& p.updates@ == place(rel_updates())
}

/// `"/" + rel` as a string.
fn rooted_str(rel: &str) -> (r: String)
    ensures
        r@ == rooted(rel@),
{
    let mut out = String::new();
    push_char(&mut out, '/');
    out.append(rel);
    assert(out@ =~= rooted(rel@));
    out
}

impl Paths {
    /// The production layout: the tree rooted at `/`.
    pub fn production() -> (r: Self)
        ensures
            r.prefix is None,
            laid_out(r, |rel: Seq<char>| rooted(rel)),
    {
        Paths {
            prefix: None,
            config: rooted_str("etc/homeai/config.toml"),
            house: rooted_str("etc/homeai/house.toml"),
            models: rooted_str("etc/homeai/models.toml"),
            tls_dir: rooted_str("etc/homeai/tls"),
            db: rooted_str("var/lib/homeai/home.db"),
            log_dir: rooted_str("var/log/homeai"),
            updates: rooted_str("var/lib/homeai/updates"),
        }
    }

    /// The same tree rooted under `prefix`.
    pub fn prefixed(prefix: &str) -> (r: Self)
        ensures
            r.prefix matches Some(p) && p@ == prefix@,
            laid_out(r, |rel: Seq<char>| path_join(prefix@, rel)),
    {
        Paths {
            config: join(prefix, "etc/homeai/config.toml"),
            house: join(prefix, "etc/homeai/house.toml"),
            models: join(prefix, "etc/homeai/models.toml"),
            tls_dir: join(prefix, "etc/homeai/tls"),
            db: join(prefix, "var/lib/homeai/home.db"),
            log_dir: join(prefix, "var/log/homeai"),
            updates: join(prefix, "var/lib/homeai/updates"),
            prefix: Some(String::from_str(prefix)),
        }
    }

    pub fn is_prefixed(&self) -> (r: bool)
        ensures
            r == self.prefix is Some,
    {
        self.prefix.is_some()
    }

    pub fn prefix(&self) -> (r: Option<&str>)
        ensures
            r is Some == self.prefix is Some,
            r matches Some(p) ==> self.prefix matches Some(q) && p@ == q@,
    {
        match &self.prefix {
            Some(p) => Some(p.as_str()),
            None => None,
        }
    }

    /// `$log_dir/core.log`.
    pub fn core_log(&self) -> (r: String)
        ensures
            r@ == path_join(self.log_dir@, "core.log"@),
    {
        join(self.log_dir.as_str(), "core.log")
    }

    /// `$tls_dir/cert.pem`.
    pub fn tls_cert(&self) -> (r: String)
        ensures
            r@ == path_join(self.tls_dir@, "cert.pem"@),
    {
        join(self.tls_dir.as_str(), "cert.pem")
    }

    /// `$tls_dir/key.pem`.
    pub fn tls_key(&self) -> (r: String)
        ensures
            r@ == path_join(self.tls_dir@, "key.pem"@),
    {
        join(self.tls_dir.as_str(), "key.pem")
    }

    /// `$tls_dir/tokens`, where scoped bearer tokens live.
    pub fn tokens_dir(&self) -> (r: String)
        ensures
            r@ == path_join(self.tls_dir@, "tokens"@),
    {
        join(self.tls_dir.as_str(), "tokens")
    }
}

/// Rooting the tree at `/` is the production layout: for every relative
/// position, joining it onto `"/"` gives its absolute production path.
pub proof fn law_root_prefix_is_production(rel: Seq<char>)
    requires
        rel.len() == 0 || rel[0] != '/',
    ensures
        path_join(seq!['/'], rel) == rooted(rel),
{
}

/// A prefixed layout is the production layout moved under the prefix: each
/// path is the prefix joined with the production path stripped of its
/// leading `/`.
pub proof fn law_prefix_mirrors_production(prefix: Seq<char>, prod: Paths, dev: Paths)
    requires
        laid_out(prod, |rel: Seq<char>| rooted(rel)),
        laid_out(dev, |rel: Seq<char>| path_join(prefix, rel)),
    ensures
        dev.config@ == path_join(prefix, prod.config@.drop_first()),
        dev.house@ == path_join(prefix, prod.house@.drop_first()),
        dev.models@ == path_join(prefix, prod.models@.drop_first()),
        dev.tls_dir@ == path_join(prefix, prod.tls_dir@.drop_first()),
        dev.db@ == path_join(prefix, prod.db@.drop_first()),
        dev.log_dir@ == path_join(prefix, prod.log_dir@.drop_first()),
        dev.updates@ == path_join(prefix, prod.updates@.drop_first()),
{
    assert(rooted(rel_config()).drop_first() =~= rel_config());
    assert(rooted(rel_house()).drop_first() =~= rel_house());
    assert(rooted(rel_models()).drop_first() =~= rel_models());
    assert(rooted(rel_tls_dir()).drop_first() =~= rel_tls_dir());
    assert(rooted(rel_db()).drop_first() =~= rel_db());
    assert(rooted(rel_log_dir()).drop_first() =~= rel_log_dir());
    assert(rooted(rel_updates()).drop_first() =~= rel_updates());
}

} // verus!
