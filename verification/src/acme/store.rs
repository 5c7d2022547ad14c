//! Where the ACME account key and issued certificates are kept.
//!
//! Layout under the base directory:
//!
//! ```text
//! <base>/account.key            ACME account private key (PEM)
//! <base>/certs/<host>/fullchain.pem
//! <base>/certs/<host>/key.pem
//! ```
//!
//! The base directory is an explicit path, else `/var/lib/httpsd` where that can
//! be written, else `$XDG_DATA_HOME/httpsd` or `~/.local/share/httpsd`. Never
//! `/run`: it is wiped on reboot, which would trigger re-issuance on every boot.
//! Directories are created `0700` and key files `0600`. Reading and writing the
//! files is the runtime's work; this module says which, and what they mean.
use crate::acme::manager::{norm, normalize};
use crate::error::{Error, ErrorModel, Result};
use crate::path::{join, joined};
use crate::text::{
    chars_of, chars_split, concat, is_empty, law_split_undoes_joining, opt_text, owned, split, views,
};
use vstd::prelude::*;

verus! {

broadcast use vstd::seq::group_seq_axioms;

/// Only the owner may enter.
pub const DIR_MODE: u32 = 0o700;

/// Only the owner may read.
pub const PRIVATE_MODE: u32 = 0o600;

/// Anyone may read, such as the certificate chain.
pub const PUBLIC_MODE: u32 = 0o644;

/// A certificate loaded from (or to be saved to) disk.
#[derive(Debug)]
pub struct StoredCert {
    /// The full chain (leaf first) as PEM.
    pub chain_pem: String,
    /// The certificate's private key as PEM.
    pub key_pem: String,
}

/// What reading a file came to.
#[derive(Debug)]
pub enum FileText {
    Content(String),
    Missing,
    /// It could not be read, for this reason.
    Failed(String),
}

/// A file to be written: to `tmp` first, with its mode set and flushed, which
/// then takes the place of `path`.
#[derive(Debug)]
pub struct FileWrite {
    pub path: String,
    pub tmp: String,
    pub content: String,
    pub mode: u32,
}

/// The characters of a host name's labels.
pub open spec fn host_char(c: char) -> bool {
    ('a' <= c && c <= 'z') || ('A' <= c && c <= 'Z') || ('0' <= c && c <= '9') || c == '-' || c == '_'
        || c == '*'
}

/// A label of a host name.
pub open spec fn host_label(l: Seq<char>) -> bool {
    0 < l.len() <= 63 && forall|i: int| 0 <= i < l.len() ==> host_char(#[trigger] l[i])
}

/// Whether a canonical host name can name a directory.
pub open spec fn storable(host: Seq<char>) -> bool {
    &&& 0 < host.len() <= 253
    &&& forall|i: int|
        0 <= i < split(host, '.').len() ==> host_label(#[trigger] split(host, '.')[i])
}

/// A wildcard's asterisk is stored as an underscore.
pub open spec fn star_mapped(host: Seq<char>) -> Seq<char> {
    host.map_values(
        |c: char|
            if c == '*' {
                '_'
            } else {
                c
            },
    )
}

/// The error for a host that cannot name a directory.
pub open spec fn bad_host() -> ErrorModel {
    ErrorModel::Config("invalid host for cert storage"@)
}

fn is_host_label(l: &[char]) -> (r: bool)
    ensures
        r == host_label(l@),
{
    if l.len() == 0 || l.len() > 63 {
        return false;
    }
    let mut i: usize = 0;
    while i < l.len()
        invariant
            i <= l@.len(),
            forall|k: int| 0 <= k < i ==> host_char(#[trigger] l@[k]),
        decreases l.len() - i,
    {
        let c: char = l[i];
        if !(('a' <= c && c <= 'z') || ('A' <= c && c <= 'Z') || ('0' <= c && c <= '9') || c == '-' || c
            == '_' || c == '*') {
            proof {
                assert(!host_char(l@[i as int]));
            }
            return false;
        }
        i += 1;
    }
    true
}

/// Reject host names that could escape the certificate directory or be
/// ambiguous. Wildcards are stored with `*` mapped to `_`.
pub fn sanitize_host(host: &str) -> (r: Result<String>)
    ensures
        match r {
            Ok(s) => storable(norm(host@)) && s@ == star_mapped(norm(host@)),
            Err(e) => !storable(norm(host@)) && e@ == bad_host(),
        },
{
    let h = normalize(host);
    let c = chars_of(h.as_str());
    if c.len() == 0 || c.len() > 253 {
        return Err(Error::Config(owned("invalid host for cert storage")));
    }
    let labels = chars_split(c.as_slice(), '.');
    let ghost parts = split(h@, '.');
    let mut i: usize = 0;
    while i < labels.len()
        invariant
            i <= labels@.len(),
            parts == views(labels@),
            parts == split(h@, '.'),
            h@ == norm(host@),
            forall|k: int| 0 <= k < i ==> host_label(#[trigger] parts[k]),
        decreases labels.len() - i,
    {
        if !is_host_label(labels[i]) {
            proof {
                assert(parts[i as int] == labels@[i as int]@);
            }
            return Err(Error::Config(owned("invalid host for cert storage")));
        }
        i += 1;
    }
    let mut out: String = String::new();
    let mut k: usize = 0;
    proof {
        assert(out@ =~= star_mapped(c@).take(0));
    }
    while k < c.len()
        invariant
            k <= c@.len(),
            out@ == star_mapped(c@).take(k as int),
        decreases c.len() - k,
    {
        let x: char = if c[k] == '*' {
            '_'
        } else {
            c[k]
        };
        out.push(x);
        proof {
            assert(star_mapped(c@).take(k + 1) =~= star_mapped(c@).take(k as int).push(x));
        }
        k += 1;
    }
    proof {
        assert(star_mapped(c@).take(c@.len() as int) =~= star_mapped(c@));
    }
    Ok(out)
}

/// The base directory: the explicit one, else the system's where it can be
/// written, else one under the user's data directory.
pub open spec fn base_of(
    dir: Option<Seq<char>>,
    system_ok: bool,
    xdg: Option<Seq<char>>,
    home: Option<Seq<char>>,
) -> Option<Seq<char>> {
    if dir is Some {
        dir
    } else if system_ok {
        Some("/var/lib/httpsd"@)
    } else if xdg is Some && xdg->0.len() > 0 {
        Some(joined(xdg->0, "httpsd"@))
    } else if home is Some && home->0.len() > 0 {
        Some(joined(home->0, ".local/share/httpsd"@))
    } else {
        None
    }
}

/// Filesystem-backed ACME state.
#[derive(Debug)]
pub struct Store {
    base: String,
}

impl View for Store {
    type V = Seq<char>;

    /// The base directory.
    closed spec fn view(&self) -> Seq<char> {
        self.base@
    }
}

/// The directory of the certificates.
pub open spec fn certs_under(base: Seq<char>) -> Seq<char> {
    joined(base, "certs"@)
}

/// The directory of a host's certificate.
pub open spec fn dir_of(base: Seq<char>, host: Seq<char>) -> Seq<char> {
    joined(certs_under(base), star_mapped(norm(host)))
}

/// The file of a host's certificate chain.
pub open spec fn chain_path(base: Seq<char>, host: Seq<char>) -> Seq<char> {
    joined(dir_of(base, host), "fullchain.pem"@)
}

/// The file of a host's private key.
pub open spec fn key_path(base: Seq<char>, host: Seq<char>) -> Seq<char> {
    joined(dir_of(base, host), "key.pem"@)
}

/// What the content of a file is, if the file is there.
pub open spec fn content_of(f: FileText) -> core::result::Result<Option<Seq<char>>, ErrorModel> {
    match f {
        FileText::Content(s) => Ok(Some(s@)),
        FileText::Missing => Ok(None),
        FileText::Failed(m) => Err(ErrorModel::Io(m@)),
    }
}

/// The certificate of a host, given the contents of its two files.
pub open spec fn stored(
    host: Seq<char>,
    chain: core::result::Result<Option<Seq<char>>, ErrorModel>,
    key: core::result::Result<Option<Seq<char>>, ErrorModel>,
) -> core::result::Result<Option<(Seq<char>, Seq<char>)>, ErrorModel> {
    if !storable(norm(host)) {
        Err(bad_host())
    } else {
        match (chain, key) {
            (Err(m), _) => Err(m),
            (Ok(_), Err(m)) => Err(m),
            (Ok(Some(c)), Ok(Some(k))) => Ok(Some((c, k))),
            (Ok(_), Ok(_)) => Ok(None),
        }
    }
}

/// A loaded certificate, as chain and key.
pub open spec fn cert_result(r: Result<Option<StoredCert>>) -> core::result::Result<
    Option<(Seq<char>, Seq<char>)>,
    ErrorModel,
> {
    match r {
        Ok(Some(c)) => Ok(Some((c.chain_pem@, c.key_pem@))),
        Ok(None) => Ok(None),
        Err(e) => Err(e@),
    }
}

fn read_opt(f: FileText) -> (r: Result<Option<String>>)
    ensures
        match (r, content_of(f)) {
            (Ok(s), Ok(t)) => opt_text(s) == t,
            (Err(e), Err(m)) => e@ == m,
            _ => false,
        },
{
    match f {
        FileText::Content(s) => Ok(Some(s)),
        FileText::Missing => Ok(None),
        FileText::Failed(m) => Err(Error::Io(m)),
    }
}

impl Store {
    /// The store at `dir`, or at the default location when `dir` is `None`:
    /// `/var/lib/httpsd` if `system_ok` (it could be created), else under
    /// `xdg` (`XDG_DATA_HOME`) or `home` (`HOME`).
    pub fn open(
        dir: Option<String>,
        system_ok: bool,
        xdg: Option<String>,
        home: Option<String>,
    ) -> (r: Result<Store>)
        ensures
            match r {
                Ok(s) => base_of(opt_text(dir), system_ok, opt_text(xdg), opt_text(home)) == Some(
                    s@,
                ),
                Err(e) => base_of(opt_text(dir), system_ok, opt_text(xdg), opt_text(home)) is None
                    && e@ == ErrorModel::Config(
                    "cannot determine a cert storage directory (set one explicitly, or HOME/XDG_DATA_HOME)"@,
                ),
            },
    {
        if let Some(base) = dir {
            return Ok(Store { base });
        }
        if system_ok {
            return Ok(Store { base: owned("/var/lib/httpsd") });
        }
        if let Some(x) = xdg {
            if !is_empty(x.as_str()) {
                return Ok(Store { base: join(x.as_str(), "httpsd") });
            }
        }
        if let Some(h) = home {
            if !is_empty(h.as_str()) {
                return Ok(Store { base: join(h.as_str(), ".local/share/httpsd") });
            }
        }
        Err(
            Error::Config(
                owned(
                    "cannot determine a cert storage directory (set one explicitly, or HOME/XDG_DATA_HOME)",
                ),
            ),
        )
    }

    /// The base directory in use.
    pub fn base(&self) -> (r: &str)
        ensures
            r@ == self@,
    {
        self.base.as_str()
    }

    /// The directory of the certificates.
    pub fn certs_dir(&self) -> (r: String)
        ensures
            r@ == certs_under(self@),
    {
        join(self.base.as_str(), "certs")
    }

    /// The file of the account key.
    pub fn account_path(&self) -> (r: String)
        ensures
            r@ == joined(self@, "account.key"@),
    {
        join(self.base.as_str(), "account.key")
    }

    /// The directory of a host's certificate.
    pub fn host_dir(&self, host: &str) -> (r: Result<String>)
        ensures
            match r {
                Ok(d) => storable(norm(host@)) && d@ == dir_of(self@, host@),
                Err(e) => !storable(norm(host@)) && e@ == bad_host(),
            },
    {
        match sanitize_host(host) {
            Ok(name) => Ok(join(self.certs_dir().as_str(), name.as_str())),
            Err(e) => Err(e),
        }
    }

    /// The ACME account key PEM in the account file, or `None` if no account
    /// exists yet.
    pub fn load_account_key(&self, file: FileText) -> (r: Result<Option<String>>)
        ensures
            match (r, content_of(file)) {
                (Ok(s), Ok(t)) => opt_text(s) == t,
                (Err(e), Err(m)) => e@ == m,
                _ => false,
            },
    {
        read_opt(file)
    }

    /// How to persist the ACME account key PEM (mode 0600).
    pub fn save_account_key(&self, pem: &str) -> (r: FileWrite)
        ensures
            r.path@ == joined(self@, "account.key"@),
            r.tmp@ == joined(self@, "account.tmp"@),
            r.content@ == pem@,
            r.mode == PRIVATE_MODE,
    {
        FileWrite {
            path: self.account_path(),
            tmp: join(self.base.as_str(), "account.tmp"),
            content: owned(pem),
            mode: PRIVATE_MODE,
        }
    }

    /// The files of a host's certificate chain and key: those that
    /// [`load_cert`](Store::load_cert) takes and [`save_cert`](Store::save_cert)
    /// writes.
    pub fn cert_files(&self, host: &str) -> (r: Result<(String, String)>)
        ensures
            match r {
                Ok((c, k)) => storable(norm(host@)) && c@ == chain_path(self@, host@) && k@
                    == key_path(self@, host@),
                Err(e) => !storable(norm(host@)) && e@ == bad_host(),
            },
    {
        match self.host_dir(host) {
            Ok(dir) => Ok((join(dir.as_str(), "fullchain.pem"), join(dir.as_str(), "key.pem"))),
            Err(e) => Err(e),
        }
    }

    /// The stored certificate for `host`, given what its two
    /// [files](Store::cert_files) came to, or `None` if either is absent.
    pub fn load_cert(&self, host: &str, chain: FileText, key: FileText) -> (r: Result<
        Option<StoredCert>,
    >)
        ensures
            cert_result(r) == stored(host@, content_of(chain), content_of(key)),
    {
        match sanitize_host(host) {
            Ok(_) => {},
            Err(e) => {
                return Err(e);
            },
        }
        let a = match read_opt(chain) {
            Ok(a) => a,
            Err(e) => {
                return Err(e);
            },
        };
        let b = match read_opt(key) {
            Ok(b) => b,
            Err(e) => {
                return Err(e);
            },
        };
        match (a, b) {
            (Some(chain_pem), Some(key_pem)) => Ok(Some(StoredCert { chain_pem, key_pem })),
            _ => Ok(None),
        }
    }

    /// How to persist a certificate and key for `host`: chain 0644, then key
    /// 0600, both in [`host_dir`](Store::host_dir).
    pub fn save_cert(&self, host: &str, chain_pem: &str, key_pem: &str) -> (r: Result<
        (FileWrite, FileWrite),
    >)
        ensures
            match r {
                Ok((c, k)) => {
                    let dir = dir_of(self@, host@);
                    &&& storable(norm(host@))
                    &&& c.path@ == chain_path(self@, host@)
                    &&& c.tmp@ == joined(dir, "fullchain.tmp"@)
                    &&& c.content@ == chain_pem@
                    &&& c.mode == PUBLIC_MODE
                    &&& k.path@ == key_path(self@, host@)
                    &&& k.tmp@ == joined(dir, "key.tmp"@)
                    &&& k.content@ == key_pem@
                    &&& k.mode == PRIVATE_MODE
                },
                Err(e) => !storable(norm(host@)) && e@ == bad_host(),
            },
    {
        let dir = match self.host_dir(host) {
            Ok(d) => d,
            Err(e) => {
                return Err(e);
            },
        };
        let chain = FileWrite {
            path: join(dir.as_str(), "fullchain.pem"),
            tmp: join(dir.as_str(), "fullchain.tmp"),
            content: owned(chain_pem),
            mode: PUBLIC_MODE,
        };
        let key = FileWrite {
            path: join(dir.as_str(), "key.pem"),
            tmp: join(dir.as_str(), "key.tmp"),
            content: owned(key_pem),
            mode: PRIVATE_MODE,
        };
        Ok((chain, key))
    }
}

// ---------------------------------------------------------------------------
// Laws
// ---------------------------------------------------------------------------

/// A host's directory is a single name under the certificate directory: no host
/// can name a path, the parent directory or a hidden file.
pub proof fn law_host_directory_stays_inside(host: Seq<char>)
    requires
        storable(host),
    ensures
        ({
            let name = star_mapped(host);
            &&& name.len() > 0
            &&& name[0] != '.'
            &&& forall|i: int| 0 <= i < name.len() ==> name[i] != '/' && name[i] != '\\'
        }),
{
    let name = star_mapped(host);
    lemma_labels(host);
    assert forall|i: int| 0 <= i < name.len() implies name[i] != '/' && name[i] != '\\' by {
        assert(host[i] == '.' || host_char(host[i]));
    }
}

/// Every character of a storable host is a dot or belongs to a label, and the
/// first one belongs to a label.
proof fn lemma_labels(host: Seq<char>)
    requires
        forall|i: int|
            0 <= i < split(host, '.').len() ==> host_label(#[trigger] split(host, '.')[i]),
    ensures
        forall|i: int| 0 <= i < host.len() ==> host[i] == '.' || host_char(host[i]),
        host.len() > 0 && host[0] != '.',
    decreases host.len(),
{
    crate::text::lemma_find_char(host, '.');
    let parts = split(host, '.');
    match crate::text::find_char(host, '.') {
        None => {
            assert(parts[0] == host);
            assert(host_label(parts[0]));
        },
        Some(k) => {
            let rest = host.skip(k + 1);
            assert(parts[0] == host.take(k));
            assert(host_label(parts[0]));
            assert forall|i: int| 0 <= i < split(rest, '.').len() implies host_label(
                #[trigger] split(rest, '.')[i],
            ) by {
                assert(parts[i + 1] == split(rest, '.')[i]);
            }
            lemma_labels(rest);
            assert forall|i: int| 0 <= i < host.len() implies host[i] == '.' || host_char(host[i]) by {
                if i < k {
                    assert(host.take(k)[i] == host[i]);
                } else if i > k {
                    assert(rest[i - k - 1] == host[i]);
                }
            }
            assert(host.take(k)[0] == host[0]);
        },
    }
}

/// The files there are, by path.
pub type Disk = Map<Seq<char>, Seq<char>>;

/// What reading a file comes to when nothing fails.
pub open spec fn text_at(disk: Disk, path: Seq<char>) -> core::result::Result<
    Option<Seq<char>>,
    ErrorModel,
> {
    if disk.contains_key(path) {
        Ok(Some(disk[path]))
    } else {
        Ok(None)
    }
}

/// A file was written: it was made under another name, and then took its place.
pub open spec fn put(disk: Disk, path: Seq<char>, tmp: Seq<char>, content: Seq<char>) -> Disk {
    disk.remove(tmp).insert(path, content)
}

/// The certificate of a host was saved.
pub open spec fn saved(
    base: Seq<char>,
    disk: Disk,
    host: Seq<char>,
    chain: Seq<char>,
    key: Seq<char>,
) -> Disk {
    let dir = dir_of(base, host);
    put(
        put(disk, chain_path(base, host), joined(dir, "fullchain.tmp"@), chain),
        key_path(base, host),
        joined(dir, "key.tmp"@),
        key,
    )
}

/// The certificate of a host is loaded.
pub open spec fn loaded(base: Seq<char>, disk: Disk, host: Seq<char>) -> core::result::Result<
    Option<(Seq<char>, Seq<char>)>,
    ErrorModel,
> {
    stored(host, text_at(disk, chain_path(base, host)), text_at(disk, key_path(base, host)))
}

/// A host's directory tells its canonical name.
proof fn lemma_dirs_apart(base: Seq<char>, a: Seq<char>, b: Seq<char>)
    requires
        storable(norm(a)),
        storable(norm(b)),
    ensures
        dir_of(base, a).len() > 0,
        dir_of(base, a).last() != '/',
        dir_of(base, a) == dir_of(base, b) ==> star_mapped(norm(a)) == star_mapped(norm(b)),
{
    law_host_directory_stays_inside(norm(a));
    let c = certs_under(base);
    let x = star_mapped(norm(a));
    let y = star_mapped(norm(b));
    let d = dir_of(base, a);
    assert(d.last() == x.last());
    assert(x[x.len() - 1] == x.last());
    if d == dir_of(base, b) {
        let n = d.len() - x.len();
        assert(d.skip(n) =~= x);
        assert(dir_of(base, b).skip(n) =~= y);
    }
}

/// Two files are one only if their directories and their names are.
proof fn lemma_files_apart(d: Seq<char>, e: Seq<char>, f: Seq<char>, g: Seq<char>)
    requires
        d.len() > 0,
        e.len() > 0,
        d.last() != '/',
        e.last() != '/',
        !f.contains('/'),
        !g.contains('/'),
        joined(d, f) == joined(e, g),
    ensures
        d == e,
        f == g,
{
    let p = joined(d, f);
    assert(p == d + seq!['/'] + f);
    assert(p == e + seq!['/'] + g);
    if d.len() < e.len() {
        let i = e.len() - d.len() - 1;
        assert(p[e.len() as int] == '/');
        assert(f[i] == p[e.len() as int]);
        assert(f.contains(f[i]));
    } else if e.len() < d.len() {
        let i = d.len() - e.len() - 1;
        assert(p[d.len() as int] == '/');
        assert(g[i] == p[d.len() as int]);
        assert(g.contains(g[i]));
    }
    assert(d =~= p.take(d.len() as int));
    assert(e =~= p.take(e.len() as int));
    assert(f =~= p.skip(d.len() as int + 1));
    assert(g =~= p.skip(e.len() as int + 1));
}

proof fn lemma_file_names()
    ensures
        !"fullchain.pem"@.contains('/'),
        !"key.pem"@.contains('/'),
        !"fullchain.tmp"@.contains('/'),
        !"key.tmp"@.contains('/'),
        "fullchain.pem"@ != "key.pem"@,
        "fullchain.tmp"@ != "key.pem"@,
        "key.tmp"@ != "key.pem"@,
        "fullchain.tmp"@ != "fullchain.pem"@,
        "key.tmp"@ != "fullchain.pem"@,
{
    reveal_strlit("fullchain.pem");
    reveal_strlit("key.pem");
    reveal_strlit("fullchain.tmp");
    reveal_strlit("key.tmp");
    assert("fullchain.pem"@[0] == 'f' && "key.pem"@[0] == 'k');
    assert("fullchain.tmp"@[0] == 'f' && "key.tmp"@[0] == 'k');
    assert("fullchain.pem"@[10] == 'p' && "fullchain.tmp"@[10] == 't');
    assert("key.pem"@[4] == 'p' && "key.tmp"@[4] == 't');
}

/// Saving leaves the files in another directory alone.
proof fn lemma_save_spares(
    base: Seq<char>,
    disk: Disk,
    a: Seq<char>,
    b: Seq<char>,
    chain: Seq<char>,
    key: Seq<char>,
    f: Seq<char>,
)
    requires
        storable(norm(a)),
        storable(norm(b)),
        dir_of(base, a) != dir_of(base, b),
        !f.contains('/'),
    ensures
        text_at(saved(base, disk, a, chain, key), joined(dir_of(base, b), f)) == text_at(
            disk,
            joined(dir_of(base, b), f),
        ),
{
    let d = dir_of(base, a);
    let e = dir_of(base, b);
    lemma_dirs_apart(base, a, b);
    lemma_dirs_apart(base, b, a);
    lemma_file_names();
    let p = joined(e, f);
    if p == joined(d, "fullchain.pem"@) {
        lemma_files_apart(e, d, f, "fullchain.pem"@);
    }
    if p == joined(d, "key.pem"@) {
        lemma_files_apart(e, d, f, "key.pem"@);
    }
    if p == joined(d, "fullchain.tmp"@) {
        lemma_files_apart(e, d, f, "fullchain.tmp"@);
    }
    if p == joined(d, "key.tmp"@) {
        lemma_files_apart(e, d, f, "key.tmp"@);
    }
}

/// What was saved for a host is what is loaded for it, and for every host of the
/// same canonical name; for any other host a load gives what it gave before.
pub proof fn law_saved_certificate_is_loaded(
    base: Seq<char>,
    disk: Disk,
    host: Seq<char>,
    chain: Seq<char>,
    key: Seq<char>,
    other: Seq<char>,
)
    requires
        storable(norm(host)),
        storable(norm(other)),
    ensures
        loaded(base, saved(base, disk, host, chain, key), other) == (if star_mapped(norm(other))
            == star_mapped(norm(host)) {
            Ok(Some((chain, key)))
        } else {
            loaded(base, disk, other)
        }),
{
    lemma_dirs_apart(base, host, other);
    lemma_file_names();
    let d = dir_of(base, host);
    if star_mapped(norm(other)) == star_mapped(norm(host)) {
        if joined(d, "fullchain.pem"@) == joined(d, "key.pem"@) {
            lemma_files_apart(d, d, "fullchain.pem"@, "key.pem"@);
        }
        if joined(d, "fullchain.pem"@) == joined(d, "key.tmp"@) {
            lemma_files_apart(d, d, "fullchain.pem"@, "key.tmp"@);
        }
    } else {
        lemma_save_spares(base, disk, host, other, chain, key, "fullchain.pem"@);
        lemma_save_spares(base, disk, host, other, chain, key, "key.pem"@);
    }
}

/// A host name of short labels, with nothing in them but letters, digits, hyphens,
/// underscores and asterisks, names a directory; one with any other label does not.
pub proof fn law_storable_hosts(labels: Seq<Seq<char>>, i: int)
    requires
        labels.len() > 0,
        forall|k: int| 0 <= k < labels.len() ==> !(#[trigger] labels[k]).contains('.'),
        0 <= i < labels.len(),
    ensures
        (forall|k: int| 0 <= k < labels.len() ==> host_label(#[trigger] labels[k])) && 0 < concat(
            labels,
            seq!['.'],
        ).len() <= 253 ==> storable(concat(labels, seq!['.'])),
        labels[i].len() == 0 || labels[i].len() > 63 ==> !storable(concat(labels, seq!['.'])),
        labels[i].contains('/') || labels[i].contains('\\') || labels[i].contains(' ') ==> !storable(
            concat(labels, seq!['.']),
        ),
        concat(labels, seq!['.']).len() > 253 ==> !storable(concat(labels, seq!['.'])),
{
    law_split_undoes_joining(labels, '.');
    let host = concat(labels, seq!['.']);
    assert(split(host, '.')[i] == labels[i]);
    if storable(host) {
        assert(host_label(labels[i]));
        assert(!labels[i].contains('/')) by {
            if labels[i].contains('/') {
                let k = choose|k: int| 0 <= k < labels[i].len() && labels[i][k] == '/';
                assert(host_char(labels[i][k]));
            }
        }
        assert(!labels[i].contains('\\')) by {
            if labels[i].contains('\\') {
                let k = choose|k: int| 0 <= k < labels[i].len() && labels[i][k] == '\\';
                assert(host_char(labels[i][k]));
            }
        }
        assert(!labels[i].contains(' ')) by {
            if labels[i].contains(' ') {
                let k = choose|k: int| 0 <= k < labels[i].len() && labels[i][k] == ' ';
                assert(host_char(labels[i][k]));
            }
        }
    }
}

/// An asterisk is stored as an underscore, and every other character as itself.
pub proof fn law_stars_are_mapped(host: Seq<char>, i: int)
    requires
        0 <= i < host.len(),
    ensures
        star_mapped(host).len() == host.len(),
        host[i] == '*' ==> star_mapped(host)[i] == '_',
        host[i] != '*' ==> star_mapped(host)[i] == host[i],
{
}

/// State is kept where it was asked for, else in the system's place, else in the
/// user's, and nowhere where there is none of these.
pub proof fn law_where_state_is_kept(
    dir: Seq<char>,
    xdg: Option<Seq<char>>,
    home: Option<Seq<char>>,
    ok: bool,
)
    ensures
        base_of(Some(dir), ok, xdg, home) == Some(dir),
        base_of(None, true, xdg, home) == Some("/var/lib/httpsd"@),
        xdg matches Some(x) && x.len() > 0 ==> base_of(None, false, xdg, home) == Some(
            joined(xdg->0, "httpsd"@),
        ),
        (xdg is None || xdg->0.len() == 0) && home is Some && home->0.len() > 0 ==> base_of(
            None,
            false,
            xdg,
            home,
        ) == Some(joined(home->0, ".local/share/httpsd"@)),
        base_of(None, false, None, None) is None,
{
}

/// Chain and key lie side by side in the directory of their host.
pub proof fn law_certificate_files(base: Seq<char>, host: Seq<char>)
    ensures
        chain_path(base, host) == joined(
            joined(joined(base, "certs"@), star_mapped(norm(host))),
            "fullchain.pem"@,
        ),
        key_path(base, host) == joined(
            joined(joined(base, "certs"@), star_mapped(norm(host))),
            "key.pem"@,
        ),
{
}

} // verus!
