//! The bridge between guest code and the process environment.
//!
//! Setting or removing a variable whose name is empty, holds `=` or NUL, or
//! whose value holds NUL aborts the process at the OS level. `System` decides,
//! before any such call is made, whether a request is served, answered with
//! absence, or refused with an argument error. The caller performs the
//! environment access that the returned plan names.

use vstd::prelude::*;
use crate::bytes::{bytes_eq, contains_byte, copy_bytes, debug_bytes, debug_of, has_byte};

verus! {

pub const EQUALS: u8 = 0x3d;

pub const NUL: u8 = 0;

/// A name that the OS cannot set: empty, or holding `=`.
pub open spec fn unsettable(n: Seq<u8>) -> bool {
    n.len() == 0 || has_byte(n, EQUALS)
}

/// A name that the OS accepts: nonempty, with no `=` and no NUL.
pub open spec fn valid_name(n: Seq<u8>) -> bool {
    !unsettable(n) && !has_byte(n, NUL)
}

/// The three argument errors of the bridge.
#[derive(Clone, Copy, PartialEq, Eq, Debug, Structural)]
pub enum EnvErrorKind {
    /// The name is empty or holds `=`, and cannot be set.
    InvalidName,
    /// The name holds a NUL byte.
    NameContainsNul,
    /// The value holds a NUL byte.
    ValueContainsNul,
}

/// An argument error, with the name it was raised for.
#[derive(Debug)]
pub struct EnvError {
    pub kind: EnvErrorKind,
    pub name: Vec<u8>,
}

/// The message that guest code sees for an error of `kind` on `name`.
pub open spec fn message_of(kind: EnvErrorKind, name: Seq<u8>) -> Seq<char> {
    match kind {
        EnvErrorKind::InvalidName => "Invalid argument - setenv("@ + debug_of(name) + ")"@,
        EnvErrorKind::NameContainsNul => "bad environment variable name: contains null byte"@,
        EnvErrorKind::ValueContainsNul => "bad environment variable value: contains null byte"@,
    }
}

impl EnvError {
    /// The guest-visible message of this error.
    pub fn message(&self) -> (r: String)
        ensures
            r@ == message_of(self.kind, self.name@),
    {
        match self.kind {
            EnvErrorKind::InvalidName => {
                let mut s = String::from_str("Invalid argument - setenv(");
                let shown = debug_bytes(self.name.as_slice());
                s.append(shown.as_str());
                s.append(")");
                s
            },
            EnvErrorKind::NameContainsNul => String::from_str(
                "bad environment variable name: contains null byte",
            ),
            EnvErrorKind::ValueContainsNul => String::from_str(
                "bad environment variable value: contains null byte",
            ),
        }
    }
}

/// What a lookup of a variable needs.
#[derive(Clone, Copy, PartialEq, Eq, Debug, Structural)]
pub enum GetPlan {
    /// The name can never be bound: the answer is absence, with no lookup.
    Absent,
    /// Look the name up in the environment and answer with what is bound.
    Read,
}

/// What an assignment to a variable needs.
#[derive(Clone, Copy, PartialEq, Eq, Debug, Structural)]
pub enum PutPlan {
    /// Bind the name to the value, and answer with the value.
    Assign,
    /// Read what is bound to the name, remove it, and answer with what was read.
    Remove,
}

/// The decision for a lookup of `n`.
pub open spec fn get_check(n: Seq<u8>) -> Result<GetPlan, EnvErrorKind> {
    if unsettable(n) {
        Ok(GetPlan::Absent)
    } else if has_byte(n, NUL) {
        Err(EnvErrorKind::NameContainsNul)
    } else {
        Ok(GetPlan::Read)
    }
}

/// The decision for an assignment of `v` to `n`; `None` asks for removal.
pub open spec fn put_check(n: Seq<u8>, v: Option<Seq<u8>>) -> Result<PutPlan, EnvErrorKind> {
    if unsettable(n) {
        Err(EnvErrorKind::InvalidName)
    } else if has_byte(n, NUL) {
        Err(EnvErrorKind::NameContainsNul)
    } else {
        match v {
            Some(v) => if has_byte(v, NUL) {
                Err(EnvErrorKind::ValueContainsNul)
            } else {
                Ok(PutPlan::Assign)
            },
            None => Ok(PutPlan::Remove),
        }
    }
}

/// A decision with the error reduced to its kind.
pub open spec fn kind_of<T>(r: Result<T, EnvError>) -> Result<T, EnvErrorKind> {
    match r {
        Ok(p) => Ok(p),
        Err(e) => Err(e.kind),
    }
}

pub open spec fn opt_view(v: Option<&[u8]>) -> Option<Seq<u8>> {
    match v {
        Some(b) => Some(b@),
        None => None,
    }
}

/// The mapping that a list of name/value pairs denotes: of two pairs with one
/// name, the later wins.
pub open spec fn pairs_map(s: Seq<(Vec<u8>, Vec<u8>)>) -> Map<Seq<u8>, Seq<u8>>
    decreases s.len(),
{
    if s.len() == 0 {
        Map::empty()
    } else {
        pairs_map(s.drop_last()).insert(s.last().0@, s.last().1@)
    }
}

/// No name occurs twice in `s`.
pub open spec fn unique_names(s: Seq<(Vec<u8>, Vec<u8>)>) -> bool {
    forall|i: int, j: int| 0 <= i < j < s.len() ==> s[i].0@ != s[j].0@
}

/// Replacing the pair that holds a name replaces that name's value.
proof fn lemma_pairs_map_update(s: Seq<(Vec<u8>, Vec<u8>)>, j: int, p: (Vec<u8>, Vec<u8>))
    requires
        unique_names(s),
        0 <= j < s.len(),
        s[j].0@ == p.0@,
    ensures
        pairs_map(s.update(j, p)) == pairs_map(s).insert(p.0@, p.1@),
    decreases s.len(),
{
    let t = s.update(j, p);
    let last = s.last();
    if j == s.len() - 1 {
        assert(t.drop_last() =~= s.drop_last());
        assert(pairs_map(t) =~= pairs_map(s).insert(p.0@, p.1@));
    } else {
        assert(t.drop_last() =~= s.drop_last().update(j, p));
        lemma_pairs_map_update(s.drop_last(), j, p);
        assert(last.0@ != p.0@);
        assert(pairs_map(t) =~= pairs_map(s).insert(p.0@, p.1@));
    }
}

/// After assigning `va` to `a` and then `vb` to `b`, two distinct valid names
/// with NUL-free values, the environment binds `a` to `va` and `b` to `vb`,
/// and every other name as before. A listing of it, once `as_map` has made
/// the names unique, denotes that same mapping.
pub proof fn lemma_listing_after_two_puts(
    env: Map<Seq<u8>, Seq<u8>>,
    a: Seq<u8>,
    va: Seq<u8>,
    b: Seq<u8>,
    vb: Seq<u8>,
    listing: Seq<(Vec<u8>, Vec<u8>)>,
)
    requires
        valid_name(a),
        valid_name(b),
        a != b,
        !has_byte(va, NUL),
        !has_byte(vb, NUL),
        pairs_map(listing) == env_put(env_put(env, a, Some(va)).1, b, Some(vb)).1,
    ensures
        bound(pairs_map(listing), a) == Some(va),
        bound(pairs_map(listing), b) == Some(vb),
        forall|k: Seq<u8>| k != a && k != b ==> bound(pairs_map(listing), k) == bound(env, k),
{
    let m = pairs_map(listing);
    assert(m.contains_key(a) && m.contains_key(b));
}

/// The environment backend of the host process.
#[derive(Clone, Copy, Debug, Default)]
pub struct System;

impl System {
    pub fn new() -> (r: Self)
        ensures
            r == System,
    {
        System
    }

    /// Decides how to answer a lookup of `name`.
    pub fn plan_get(&self, name: &[u8]) -> (r: Result<GetPlan, EnvError>)
        ensures
            kind_of(r) == get_check(name@),
            r matches Err(e) ==> e.name@ == name@,
    {
        if name.len() == 0 || contains_byte(name, EQUALS) {
            return Ok(GetPlan::Absent);
        }
        if contains_byte(name, NUL) {
            return Err(EnvError { kind: EnvErrorKind::NameContainsNul, name: copy_bytes(name) });
        }
        Ok(GetPlan::Read)
    }

    /// Decides how to serve an assignment of `value` to `name`; `None` asks
    /// for removal.
    pub fn plan_put(&self, name: &[u8], value: Option<&[u8]>) -> (r: Result<PutPlan, EnvError>)
        ensures
            kind_of(r) == put_check(name@, opt_view(value)),
            r matches Err(e) ==> e.name@ == name@,
    {
        if name.len() == 0 || contains_byte(name, EQUALS) {
            return Err(EnvError { kind: EnvErrorKind::InvalidName, name: copy_bytes(name) });
        }
        if contains_byte(name, NUL) {
            return Err(EnvError { kind: EnvErrorKind::NameContainsNul, name: copy_bytes(name) });
        }
        match value {
            Some(v) => if contains_byte(v, NUL) {
                Err(EnvError { kind: EnvErrorKind::ValueContainsNul, name: copy_bytes(name) })
            } else {
                Ok(PutPlan::Assign)
            },
            None => Ok(PutPlan::Remove),
        }
    }

    /// The environment as a mapping from names to values, built from the
    /// pairs that the OS enumerates; of two pairs with one name the later
    /// wins. No name occurs twice in the result.
    pub fn as_map(&self, vars: &Vec<(Vec<u8>, Vec<u8>)>) -> (r: Vec<(Vec<u8>, Vec<u8>)>)
        ensures
            unique_names(r@),
            pairs_map(r@) == pairs_map(vars@),
    {
        let mut out: Vec<(Vec<u8>, Vec<u8>)> = Vec::new();
        let mut i: usize = 0;
        while i < vars.len()
            invariant
                0 <= i <= vars@.len(),
                unique_names(out@),
                pairs_map(out@) == pairs_map(vars@.take(i as int)),
            decreases vars@.len() - i,
        {
            let name = copy_bytes(vars[i].0.as_slice());
            let value = copy_bytes(vars[i].1.as_slice());
            assert(vars@.take(i + 1).drop_last() =~= vars@.take(i as int));
            let mut j: usize = 0;
            let mut found = false;
            while j < out.len()
                invariant_except_break
                    !found,
                invariant
                    0 <= j <= out@.len(),
                    forall|k: int| 0 <= k < j ==> out@[k].0@ != name@,
                ensures
                    forall|k: int| 0 <= k < j ==> out@[k].0@ != name@,
                    found ==> j < out@.len() && out@[j as int].0@ == name@,
                    !found ==> j == out@.len(),
                decreases out@.len() - j,
            {
                if bytes_eq(out[j].0.as_slice(), name.as_slice()) {
                    found = true;
                    break;
                }
                j = j + 1;
            }
            if found {
                proof {
                    lemma_pairs_map_update(out@, j as int, (name, value));
                }
                let ghost before = out@;
                out.set(j, (name, value));
                assert forall|a: int, b: int| 0 <= a < b < out@.len() implies out@[a].0@
                    != out@[b].0@ by {
                    assert(out@[a].0@ == before[a].0@ && out@[b].0@ == before[b].0@);
                }
            } else {
                let ghost before = out@;
                out.push((name, value));
                assert(out@.drop_last() =~= before);
                assert forall|a: int, b: int| 0 <= a < b < out@.len() implies out@[a].0@
                    != out@[b].0@ by {
                    if b == before.len() {
                        assert(before[a].0@ != name@);
                    }
                }
            }
            i = i + 1;
        }
        assert(vars@.take(vars@.len() as int) =~= vars@);
        out
    }
}

/// What the environment `env` binds to `n`.
pub open spec fn bound(env: Map<Seq<u8>, Seq<u8>>, n: Seq<u8>) -> Option<Seq<u8>> {
    if env.contains_key(n) {
        Some(env[n])
    } else {
        None
    }
}

/// The answer to a lookup of `n` in `env` once its plan is carried out.
pub open spec fn env_get(env: Map<Seq<u8>, Seq<u8>>, n: Seq<u8>) -> Result<
    Option<Seq<u8>>,
    EnvErrorKind,
> {
    match get_check(n) {
        Err(k) => Err(k),
        Ok(GetPlan::Absent) => Ok(None),
        Ok(GetPlan::Read) => Ok(bound(env, n)),
    }
}

/// The answer to an assignment of `v` to `n` in `env`, and the environment
/// after it, once its plan is carried out.
pub open spec fn env_put(env: Map<Seq<u8>, Seq<u8>>, n: Seq<u8>, v: Option<Seq<u8>>) -> (
    Result<Option<Seq<u8>>, EnvErrorKind>,
    Map<Seq<u8>, Seq<u8>>,
) {
    match put_check(n, v) {
        Err(k) => (Err(k), env),
        Ok(PutPlan::Assign) => (Ok(v), env.insert(n, v.unwrap())),
        Ok(PutPlan::Remove) => (Ok(bound(env, n)), env.remove(n)),
    }
}

/// A lookup of a name that is empty or holds `=` answers with absence and
/// raises no error, whatever the environment holds.
pub proof fn lemma_get_unsettable_is_absent(env: Map<Seq<u8>, Seq<u8>>, n: Seq<u8>)
    requires
        unsettable(n),
    ensures
        get_check(n) == Ok::<GetPlan, EnvErrorKind>(GetPlan::Absent),
        env_get(env, n) == Ok::<Option<Seq<u8>>, EnvErrorKind>(None),
{
}

/// A name that holds NUL, and no `=`, is refused with the NUL-name error by
/// lookup and by assignment, whatever the value.
pub proof fn lemma_nul_name_refused(n: Seq<u8>, v: Option<Seq<u8>>)
    requires
        has_byte(n, NUL),
        !has_byte(n, EQUALS),
    ensures
        get_check(n) == Err::<GetPlan, EnvErrorKind>(EnvErrorKind::NameContainsNul),
        put_check(n, v) == Err::<PutPlan, EnvErrorKind>(EnvErrorKind::NameContainsNul),
{
}

/// An assignment to a name that is empty or holds `=` is refused with the
/// invalid-argument error, whatever the value.
pub proof fn lemma_put_unsettable_refused(n: Seq<u8>, v: Option<Seq<u8>>)
    requires
        unsettable(n),
    ensures
        put_check(n, v) == Err::<PutPlan, EnvErrorKind>(EnvErrorKind::InvalidName),
{
}

/// Assigning a NUL-free value to a valid name succeeds, answers with the
/// value, and a lookup right after answers with that value.
pub proof fn lemma_put_then_get(env: Map<Seq<u8>, Seq<u8>>, n: Seq<u8>, v: Seq<u8>)
    requires
        valid_name(n),
        !has_byte(v, NUL),
    ensures
        put_check(n, Some(v)) == Ok::<PutPlan, EnvErrorKind>(PutPlan::Assign),
        env_put(env, n, Some(v)).0 == Ok::<Option<Seq<u8>>, EnvErrorKind>(Some(v)),
        env_get(env_put(env, n, Some(v)).1, n) == Ok::<Option<Seq<u8>>, EnvErrorKind>(Some(v)),
{
    assert(env_put(env, n, Some(v)).1.contains_key(n));
}

/// Removing a variable right after assigning it answers with the assigned
/// value, and a lookup after that answers with absence.
pub proof fn lemma_put_then_remove(env: Map<Seq<u8>, Seq<u8>>, n: Seq<u8>, v: Seq<u8>)
    requires
        valid_name(n),
        !has_byte(v, NUL),
    ensures
        ({
            let after_set = env_put(env, n, Some(v)).1;
            let (answer, after_remove) = env_put(after_set, n, None);
            &&& put_check(n, None) == Ok::<PutPlan, EnvErrorKind>(PutPlan::Remove)
            &&& answer == Ok::<Option<Seq<u8>>, EnvErrorKind>(Some(v))
            &&& env_get(after_remove, n) == Ok::<Option<Seq<u8>>, EnvErrorKind>(None)
        }),
{
    let after_set = env_put(env, n, Some(v)).1;
    assert(after_set.contains_key(n));
    assert(!env_put(after_set, n, None).1.contains_key(n));
}

} // verus!
