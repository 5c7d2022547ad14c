//! Drop process privileges after binding, and optionally `chroot`.
//!
//! A long-running server typically needs root only to bind privileged ports
//! (80/443) and, optionally, to `chroot`. Once those binds are done it should
//! shed root and run as an unprivileged user. [`PrivDrop`] lays that out in the
//! security-critical order (`chroot` → `setgid` + drop supplementary groups →
//! `setuid`), then verifies the drop actually stuck (root cannot be regained).
//!
//! `setuid`/`setgid` are process-wide, so the caller must ensure **all**
//! privileged binds have completed before it carries out [`PrivDrop::apply`].
use crate::error::{Error, ErrorModel, Result};
use crate::text::{
    all_white, chars_find, chars_of, chars_split_once, chars_trim, chars_uint, decimal,
    decimal_string, digit_val, find_char, is_white, law_split_once, law_trim, law_white_space,
    lemma_numeral, lemma_unsplit, opt_text, owned, parse_signed_digits, split_once, text_of, tight,
    trim,
};
use vstd::prelude::*;

verus! {

broadcast use vstd::seq::group_seq_axioms;

/// A resolved set of privilege-dropping actions: switch to `uid`/`gid` and,
/// optionally, `chroot` into a directory. Build one with [`PrivDrop::parse`],
/// then [`apply`](PrivDrop::apply) it once, after all listeners are bound.
#[derive(Debug)]
pub struct PrivDrop {
    /// Target user id, if a user was requested.
    pub uid: Option<u32>,
    /// Target group id, if a group (or a user with a primary group) was
    /// requested.
    pub gid: Option<u32>,
    /// Directory to `chroot` into before dropping, if any.
    pub chroot: Option<String>,
}

/// The model of a drop.
#[verifier::ext_equal]
pub struct PrivDropModel {
    pub uid: Option<u32>,
    pub gid: Option<u32>,
    pub chroot: Option<Seq<char>>,
}

impl View for PrivDrop {
    type V = PrivDropModel;

    open spec fn view(&self) -> PrivDropModel {
        PrivDropModel { uid: self.uid, gid: self.gid, chroot: opt_text(self.chroot) }
    }
}

// ---------------------------------------------------------------------------
// Users and groups
// ---------------------------------------------------------------------------

/// What the system knows of a user name.
#[derive(Debug)]
pub enum UserEntry {
    /// Its user id and primary group id.
    Found { uid: u32, gid: u32 },
    /// There is no such user.
    Unknown,
    /// The lookup failed.
    Failed(String),
}

/// What the system knows of a group name.
#[derive(Debug)]
pub enum GroupEntry {
    /// Its group id.
    Found(u32),
    /// There is no such group.
    Unknown,
    /// The lookup failed.
    Failed(String),
}

/// A user spec, taken apart: each part is a number, or a name to look up.
#[derive(Debug)]
pub enum Id {
    Number(u32),
    Name(String),
}

/// The model of an id.
pub enum IdModel {
    Number(u32),
    Name(Seq<char>),
}

impl View for Id {
    type V = IdModel;

    open spec fn view(&self) -> IdModel {
        match self {
            Id::Number(n) => IdModel::Number(*n),
            Id::Name(s) => IdModel::Name(s@),
        }
    }
}

/// What a part of a user spec is.
pub open spec fn id_of(s: Seq<char>) -> IdModel {
    match parse_signed_digits(s, u32::MAX as nat) {
        Some(n) => IdModel::Number(n as u32),
        None => IdModel::Name(s),
    }
}

/// The parts of a user spec: `NAME`, `UID`, `NAME:GROUP`, or `UID:GID`.
pub open spec fn spec_parts(spec: Seq<char>) -> core::result::Result<
    (IdModel, Option<IdModel>),
    ErrorModel,
> {
    let s = trim(spec);
    if s.len() == 0 {
        Err(ErrorModel::Config("empty --user value"@))
    } else {
        match split_once(s, ':') {
            Some((u, g)) => Ok((id_of(u), Some(id_of(g)))),
            None => Ok((id_of(s), None)),
        }
    }
}

/// The model of the parts of a user spec.
pub open spec fn parts_result(r: Result<(Id, Option<Id>)>) -> core::result::Result<
    (IdModel, Option<IdModel>),
    ErrorModel,
> {
    match r {
        Ok((u, Some(g))) => Ok((u@, Some(g@))),
        Ok((u, None)) => Ok((u@, None)),
        Err(e) => Err(e@),
    }
}

fn id(c: &[char]) -> (r: Id)
    ensures
        r@ == id_of(c@),
{
    match chars_uint(c, u32::MAX as u64) {
        Some(n) => Id::Number(n as u32),
        None => Id::Name(text_of(c)),
    }
}

/// Take a user spec apart. The names among its parts are to be looked up before
/// it can be [parsed](PrivDrop::parse).
pub fn parts(spec: &str) -> (r: Result<(Id, Option<Id>)>)
    ensures
        parts_result(r) == spec_parts(spec@),
{
    let c = chars_of(spec);
    let s = chars_trim(c.as_slice());
    if s.len() == 0 {
        return Err(Error::Config(owned("empty --user value")));
    }
    match chars_split_once(s, ':') {
        Some((u, g)) => Ok((id(u), Some(id(g)))),
        None => Ok((id(s), None)),
    }
}

/// What a user comes to: its id, and the primary group of a name.
pub open spec fn user_of(u: IdModel, entry: UserEntry) -> core::result::Result<
    (u32, Option<u32>),
    ErrorModel,
> {
    match u {
        IdModel::Number(n) => Ok((n, None)),
        IdModel::Name(name) => if find_char(name, '\0') is Some {
            Err(ErrorModel::Config("user name contains a NUL byte"@))
        } else {
            match entry {
                UserEntry::Found { uid, gid } => Ok((uid, Some(gid))),
                UserEntry::Unknown => Err(ErrorModel::Config("unknown user: "@ + name)),
                UserEntry::Failed(why) => Err(
                    ErrorModel::Config("getpwnam_r("@ + name + "): "@ + why@),
                ),
            }
        },
    }
}

/// What a group comes to.
pub open spec fn group_of(g: IdModel, entry: GroupEntry) -> core::result::Result<u32, ErrorModel> {
    match g {
        IdModel::Number(n) => Ok(n),
        IdModel::Name(name) => if find_char(name, '\0') is Some {
            Err(ErrorModel::Config("group name contains a NUL byte"@))
        } else {
            match entry {
                GroupEntry::Found(gid) => Ok(gid),
                GroupEntry::Unknown => Err(ErrorModel::Config("unknown group: "@ + name)),
                GroupEntry::Failed(why) => Err(
                    ErrorModel::Config("getgrnam_r("@ + name + "): "@ + why@),
                ),
            }
        },
    }
}

/// The drop that a user spec and a directory ask for. The user is resolved
/// before the group; without a group, a name's primary group is adopted.
pub open spec fn drop_for(
    user: Option<Seq<char>>,
    chroot: Option<Seq<char>>,
    u: UserEntry,
    g: GroupEntry,
) -> core::result::Result<PrivDropModel, ErrorModel> {
    match user {
        None => Ok(PrivDropModel { uid: None, gid: None, chroot }),
        Some(spec) => match spec_parts(spec) {
            Err(e) => Err(e),
            Ok((a, b)) => match user_of(a, u) {
                Err(e) => Err(e),
                Ok((uid, primary)) => match b {
                    None => Ok(PrivDropModel { uid: Some(uid), gid: primary, chroot }),
                    Some(b) => match group_of(b, g) {
                        Err(e) => Err(e),
                        Ok(gid) => Ok(PrivDropModel { uid: Some(uid), gid: Some(gid), chroot }),
                    },
                },
            },
        },
    }
}

fn lookup_failure(call: &str, name: &str, why: &str) -> (r: String)
    ensures
        r@ == call@ + name@ + "): "@ + why@,
{
    let mut s = owned(call);
    s.push_str(name);
    s.push_str("): ");
    s.push_str(why);
    s
}

fn unknown(what: &str, name: &str) -> (r: String)
    ensures
        r@ == what@ + name@,
{
    let mut s = owned(what);
    s.push_str(name);
    s
}

fn has_nul(name: &str) -> (r: bool)
    ensures
        r == (find_char(name@, '\0') is Some),
{
    let c = chars_of(name);
    chars_find(c.as_slice(), '\0').is_some()
}

fn resolve_user(u: Id, entry: UserEntry) -> (r: Result<(u32, Option<u32>)>)
    ensures
        match r {
            Ok(p) => user_of(u@, entry) == Ok::<(u32, Option<u32>), ErrorModel>(p),
            Err(e) => user_of(u@, entry) == Err::<(u32, Option<u32>), ErrorModel>(e@),
        },
{
    match u {
        Id::Number(n) => Ok((n, None)),
        Id::Name(name) => {
            if has_nul(name.as_str()) {
                return Err(Error::Config(owned("user name contains a NUL byte")));
            }
            match entry {
                UserEntry::Found { uid, gid } => Ok((uid, Some(gid))),
                UserEntry::Unknown => Err(Error::Config(unknown("unknown user: ", name.as_str()))),
                UserEntry::Failed(why) => Err(
                    Error::Config(lookup_failure("getpwnam_r(", name.as_str(), why.as_str())),
                ),
            }
        },
    }
}

fn resolve_group(g: Id, entry: GroupEntry) -> (r: Result<u32>)
    ensures
        match r {
            Ok(n) => group_of(g@, entry) == Ok::<u32, ErrorModel>(n),
            Err(e) => group_of(g@, entry) == Err::<u32, ErrorModel>(e@),
        },
{
    match g {
        Id::Number(n) => Ok(n),
        Id::Name(name) => {
            if has_nul(name.as_str()) {
                return Err(Error::Config(owned("group name contains a NUL byte")));
            }
            match entry {
                GroupEntry::Found(gid) => Ok(gid),
                GroupEntry::Unknown => Err(
                    Error::Config(unknown("unknown group: ", name.as_str())),
                ),
                GroupEntry::Failed(why) => Err(
                    Error::Config(lookup_failure("getgrnam_r(", name.as_str(), why.as_str())),
                ),
            }
        },
    }
}

// ---------------------------------------------------------------------------
// Dropping
// ---------------------------------------------------------------------------

/// One system call of a drop. A call that fails ends the drop with its error.
#[derive(Debug)]
pub enum Call {
    Chroot(String),
    /// So that the working directory is inside the new root.
    ChdirRoot,
    /// Make this the only supplementary group.
    SetGroups(u32),
    SetGid(u32),
    SetUid(u32),
    /// See whether the drop to this user stuck, with [`verify`].
    Verify(u32),
}

/// The model of a system call.
pub enum CallModel {
    Chroot(Seq<char>),
    ChdirRoot,
    SetGroups(u32),
    SetGid(u32),
    SetUid(u32),
    Verify(u32),
}

impl View for Call {
    type V = CallModel;

    open spec fn view(&self) -> CallModel {
        match self {
            Call::Chroot(p) => CallModel::Chroot(p@),
            Call::ChdirRoot => CallModel::ChdirRoot,
            Call::SetGroups(g) => CallModel::SetGroups(*g),
            Call::SetGid(g) => CallModel::SetGid(*g),
            Call::SetUid(u) => CallModel::SetUid(*u),
            Call::Verify(u) => CallModel::Verify(*u),
        }
    }
}

/// The models of system calls.
pub open spec fn call_models(v: Seq<Call>) -> Seq<CallModel> {
    v.map_values(|c: Call| c@)
}

/// The calls that carry out a drop, in order: the directory first, then the
/// groups (without the user id there is no right to change them), then the user,
/// then the proof that it stuck.
pub open spec fn calls_of(d: PrivDropModel) -> Seq<CallModel> {
    let a: Seq<CallModel> = match d.chroot {
        Some(p) => seq![CallModel::Chroot(p), CallModel::ChdirRoot],
        None => Seq::empty(),
    };
    let b: Seq<CallModel> = match d.gid {
        Some(g) => seq![CallModel::SetGroups(g), CallModel::SetGid(g)],
        None => Seq::empty(),
    };
    let c: Seq<CallModel> = match d.uid {
        Some(u) => if u != 0 {
            seq![CallModel::SetUid(u), CallModel::Verify(u)]
        } else {
            seq![CallModel::SetUid(u)]
        },
        None => Seq::empty(),
    };
    a + b + c
}

impl PrivDrop {
    /// Parse a `user` spec and an optional `chroot` path into a [`PrivDrop`].
    ///
    /// `user` accepts `NAME`, `UID`, `NAME:GROUP`, or `UID:GID`. Numeric parts
    /// are used directly; `u` and `g` are what the system knows of the names
    /// among its [`parts`]. If no group is given, the primary group of a name is
    /// adopted.
    pub fn parse(user: Option<&str>, chroot: Option<&str>, u: UserEntry, g: GroupEntry) -> (r: Result<
        PrivDrop,
    >)
        ensures
            (match r {
                Ok(d) => Ok::<PrivDropModel, ErrorModel>(d@),
                Err(e) => Err(e@),
            }) == drop_for(
                match user {
                    Some(s) => Some(s@),
                    None => None,
                },
                match chroot {
                    Some(s) => Some(s@),
                    None => None,
                },
                u,
                g,
            ),
    {
        let chroot = match chroot {
            Some(p) => Some(owned(p)),
            None => None,
        };
        let spec = match user {
            Some(s) => s,
            None => {
                return Ok(PrivDrop { uid: None, gid: None, chroot });
            },
        };
        let (a, b) = match parts(spec) {
            Ok(p) => p,
            Err(e) => {
                return Err(e);
            },
        };
        let (uid, primary) = match resolve_user(a, u) {
            Ok(p) => p,
            Err(e) => {
                return Err(e);
            },
        };
        match b {
            None => Ok(PrivDrop { uid: Some(uid), gid: primary, chroot }),
            Some(b) => match resolve_group(b, g) {
                Ok(gid) => Ok(PrivDrop { uid: Some(uid), gid: Some(gid), chroot }),
                Err(e) => Err(e),
            },
        }
    }

    /// The system calls that apply the drop, in the security-critical order:
    /// `chroot`+`chdir("/")`, then `setgroups`+`setgid`, then `setuid`, then
    /// verify that root cannot be regained.
    pub fn apply(&self) -> (r: Result<Vec<Call>>)
        ensures
            match r {
                Ok(v) => !(self@.chroot matches Some(p) && find_char(p, '\0') is Some) && call_models(
                    v@,
                ) == calls_of(self@),
                Err(e) => self@.chroot matches Some(p) && find_char(p, '\0') is Some && e@
                    == ErrorModel::Config("chroot path contains an interior NUL"@),
            },
    {
        let mut v: Vec<Call> = Vec::new();
        if let Some(path) = &self.chroot {
            if has_nul(path.as_str()) {
                return Err(Error::Config(owned("chroot path contains an interior NUL")));
            }
            v.push(Call::Chroot(owned(path.as_str())));
            v.push(Call::ChdirRoot);
        }
        if let Some(gid) = self.gid {
            v.push(Call::SetGroups(gid));
            v.push(Call::SetGid(gid));
        }
        if let Some(uid) = self.uid {
            v.push(Call::SetUid(uid));
            if uid != 0 {
                v.push(Call::Verify(uid));
            }
        }
        proof {
            assert(call_models(v@) =~= calls_of(self@));
        }
        Ok(v)
    }
}

/// What ids that are not the wanted ones are reported as.
pub open spec fn wrong_ids(uid: u32, ruid: u32, euid: u32) -> Seq<char> {
    "privilege drop failed: uid is ruid="@ + decimal(ruid as nat) + "/euid="@ + decimal(euid as nat)
        + ", expected "@ + decimal(uid as nat)
}

/// Whether a drop to `uid` stuck: it must be both the real and the effective
/// user id, and regaining root must fail.
pub fn verify(uid: u32, ruid: u32, euid: u32, regained_root: bool) -> (r: Result<()>)
    ensures
        match r {
            Ok(_) => euid == uid && ruid == uid && !regained_root,
            Err(e) => if euid != uid || ruid != uid {
                e@ == ErrorModel::Config(wrong_ids(uid, ruid, euid))
            } else {
                regained_root && e@ == ErrorModel::Config(
                    "privilege drop failed: regained root via setuid(0)"@,
                )
            },
        },
{
    if euid != uid || ruid != uid {
        let mut s = owned("privilege drop failed: uid is ruid=");
        s.push_str(decimal_string(ruid as u64).as_str());
        s.push_str("/euid=");
        s.push_str(decimal_string(euid as u64).as_str());
        s.push_str(", expected ");
        s.push_str(decimal_string(uid as u64).as_str());
        proof {
            assert(s@ =~= wrong_ids(uid, ruid, euid));
        }
        return Err(Error::Config(s));
    }
    if regained_root {
        return Err(Error::Config(owned("privilege drop failed: regained root via setuid(0)")));
    }
    Ok(())
}

// ---------------------------------------------------------------------------
// Laws
// ---------------------------------------------------------------------------

/// Groups are changed before the user, and the directory before either: once the
/// user id is dropped, the right to do so is gone.
pub proof fn law_drop_order(d: PrivDropModel, i: int, j: int)
    requires
        0 <= i < calls_of(d).len(),
        0 <= j < calls_of(d).len(),
    ensures
        calls_of(d)[i] is SetUid && (calls_of(d)[j] is SetGid || calls_of(d)[j] is SetGroups
            || calls_of(d)[j] is Chroot) ==> j < i,
        calls_of(d)[i] is SetGroups && calls_of(d)[j] is SetGid ==> i < j,
        calls_of(d)[i] is Chroot && calls_of(d)[j] !is Chroot ==> i < j,
{
}

/// A drop to a user other than root always ends with the proof that it stuck.
pub proof fn law_drop_is_verified(d: PrivDropModel)
    requires
        d.uid matches Some(u) && u != 0,
    ensures
        calls_of(d).len() > 0 && calls_of(d).last() == CallModel::Verify(d.uid->0),
{
}

/// What is a decimal number is an id; what begins otherwise is a name.
pub proof fn law_ids(n: u32, name: Seq<char>)
    requires
        name.len() > 0,
        digit_val(name[0], 10) is None,
        name[0] != '+',
    ensures
        id_of(decimal(n as nat)) == IdModel::Number(n),
        id_of(name) == IdModel::Name(name),
{
    let d = decimal(n as nat);
    lemma_numeral(n as nat, 10);
    assert(digit_val(d[0], 10) is Some);
}

/// A user spec names the user, and behind a colon the group; blanks around it do not
/// matter, and an empty one is refused.
pub proof fn law_user_specs(a: Seq<char>, user: Seq<char>, group: Seq<char>, b: Seq<char>)
    requires
        all_white(a),
        all_white(b),
        !user.contains(':'),
    ensures
        user.len() > 0 && tight(user) ==> spec_parts(a + user + b)
            == Ok::<(IdModel, Option<IdModel>), ErrorModel>((id_of(user), None)),
        tight(user + seq![':'] + group) ==> spec_parts(a + (user + seq![':'] + group) + b)
            == Ok::<(IdModel, Option<IdModel>), ErrorModel>((id_of(user), Some(id_of(group)))),
        spec_parts(a) is Err,
{
    let e = Seq::<char>::empty();
    let both = user + seq![':'] + group;
    if tight(user) {
        law_trim(a, user, b);
    }
    if tight(both) {
        law_trim(a, both, b);
    }
    law_trim(a, e, e);
    assert(a + e + e =~= a);
    lemma_unsplit(user, ':');
    law_split_once(user, group, ':');
}

/// Numbers are used as they are, and names by what the system says of them: the group
/// that is named, or else the user's own.
pub proof fn law_resolution(
    user: Seq<char>,
    group: Seq<char>,
    chroot: Option<Seq<char>>,
    uid: u32,
    primary: u32,
    gid: u32,
    u: UserEntry,
    g: GroupEntry,
)
    requires
        u == (UserEntry::Found { uid, gid: primary }),
        g == GroupEntry::Found(gid),
        tight(user),
        tight(user + seq![':'] + group),
        user.len() > 0,
        group.len() > 0,
        !user.contains(':'),
        !user.contains('\0'),
        !group.contains('\0'),
        digit_val(user[0], 10) is None,
        user[0] != '+',
        digit_val(group[0], 10) is None,
        group[0] != '+',
    ensures
        drop_for(None, chroot, u, g) == Ok::<PrivDropModel, ErrorModel>(
            PrivDropModel { uid: None, gid: None, chroot },
        ),
        drop_for(Some(user), chroot, u, g) == Ok::<PrivDropModel, ErrorModel>(
            PrivDropModel { uid: Some(uid), gid: Some(primary), chroot },
        ),
        drop_for(Some(user + seq![':'] + group), chroot, u, g) == Ok::<PrivDropModel, ErrorModel>(
            PrivDropModel { uid: Some(uid), gid: Some(gid), chroot },
        ),
{
    let e = Seq::<char>::empty();
    let both = user + seq![':'] + group;
    law_user_specs(e, user, group, e);
    assert(e + user + e =~= user);
    assert(e + both + e =~= both);
    law_ids(0, user);
    law_ids(0, group);
    lemma_unsplit(user, '\0');
    lemma_unsplit(group, '\0');
}

/// A numeric user keeps its group unless one is given, and a user that is not known
/// is refused.
pub proof fn law_numeric_and_unknown_users(
    n: u32,
    m: u32,
    user: Seq<char>,
    chroot: Option<Seq<char>>,
    u: UserEntry,
    g: GroupEntry,
)
    requires
        tight(user),
        user.len() > 0,
        !user.contains(':'),
        !user.contains('\0'),
        digit_val(user[0], 10) is None,
        user[0] != '+',
    ensures
        drop_for(Some(decimal(n as nat)), chroot, u, g) == Ok::<PrivDropModel, ErrorModel>(
            PrivDropModel { uid: Some(n), gid: None, chroot },
        ),
        drop_for(Some(decimal(n as nat) + seq![':'] + decimal(m as nat)), chroot, u, g) == Ok::<
            PrivDropModel,
            ErrorModel,
        >(PrivDropModel { uid: Some(n), gid: Some(m), chroot }),
        drop_for(Some(user), chroot, UserEntry::Unknown, g) == Err::<PrivDropModel, ErrorModel>(
            ErrorModel::Config("unknown user: "@ + user),
        ),
{
    let e = Seq::<char>::empty();
    let d = decimal(n as nat);
    let c = decimal(m as nat);
    let both = d + seq![':'] + c;
    lemma_numeral(n as nat, 10);
    lemma_numeral(m as nat, 10);
    assert(digit_val(d[0], 10) is Some && digit_val(d.last(), 10) is Some);
    assert(digit_val(c.last(), 10) is Some);
    lemma_digit_is_visible(d[0]);
    lemma_digit_is_visible(d.last());
    lemma_digit_is_visible(c.last());
    assert(both[0] == d[0] && both.last() == c.last());
    assert(!d.contains(':')) by {
        assert(digit_val(':', 10) is None);
    }
    law_user_specs(e, d, c, e);
    assert(e + d + e =~= d);
    assert(e + both + e =~= both);
    law_user_specs(e, user, e, e);
    assert(e + user + e =~= user);
    law_ids(n, user);
    law_ids(m, user);
    lemma_unsplit(user, '\0');
}

proof fn lemma_digit_is_visible(c: char)
    requires
        digit_val(c, 10) is Some,
    ensures
        !is_white(c),
{
    law_white_space(c);
}

} // verus!
