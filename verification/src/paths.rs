//! Path resolution: expands user-typed path syntax — the home shorthand `~`,
//! forward slashes, `%NAME%` environment-variable placeholders — into a
//! canonical path string with native (backslash) separators, no doubled
//! separator, and exactly one trailing separator.
//!
//! Resolution touches no filesystem and no process environment: the caller
//! supplies a snapshot of the environment as an [`EnvVars`] value, so a test
//! can substitute any fixed mapping.

use vstd::prelude::*;
use crate::text::{chars_to_string, str_eq, str_to_chars};

verus! {

/// A failure of path resolution.
#[derive(Debug, PartialEq, Eq)]
pub enum PathError {
    /// An environment-variable placeholder named a variable that is not set.
    MissingVariable(String),
}

/// A snapshot of environment variables, handed in by the caller so that path
/// resolution itself never reads the process environment.
///
/// Lookup returns the first binding of a name: earlier bindings shadow later
/// ones, so a snapshot of a real environment (whose names are unique) behaves
/// exactly like that environment.
pub struct EnvVars {
    pairs: Vec<(String, String)>,
}

impl View for EnvVars {
    type V = Seq<(Seq<char>, Seq<char>)>;

    closed spec fn view(&self) -> Seq<(Seq<char>, Seq<char>)> {
        self.pairs@.map_values(|p: (String, String)| (p.0@, p.1@))
    }
}

/// The value of the first binding of `name`, if any.
pub open spec fn spec_lookup(env: Seq<(Seq<char>, Seq<char>)>, name: Seq<char>) -> Option<
    Seq<char>,
>
    decreases env.len(),
{
    if env.len() == 0 {
        None
    } else if env[0].0 == name {
        Some(env[0].1)
    } else {
        spec_lookup(env.drop_first(), name)
    }
}

impl EnvVars {
    /// An empty snapshot: no variable is set.
    pub fn new() -> (r: Self)
        ensures
            r@ == Seq::<(Seq<char>, Seq<char>)>::empty(),
    {
        let r = EnvVars { pairs: Vec::new() };
        proof {
            assert(r@ =~= Seq::<(Seq<char>, Seq<char>)>::empty());
        }
        r
    }

    /// Appends a binding. It is visible to lookup only where `name` is not
    /// already bound.
    pub fn insert(&mut self, name: String, value: String)
        ensures
            final(self)@ == old(self)@.push((name@, value@)),
    {
        let ghost n = name@;
        let ghost v = value@;
        self.pairs.push((name, value));
        proof {
            assert(self@ =~= old(self)@.push((n, v)));
        }
    }

    /// The value bound to `name`, if any.
    pub fn get(&self, name: &str) -> (r: Option<String>)
        ensures
            match r {
                Some(v) => spec_lookup(self@, name@) == Some(v@),
                None => spec_lookup(self@, name@) is None,
            },
    {
        let n: usize = self.pairs.len();
        let mut i: usize = 0;
        proof {
            assert(self@.skip(0) =~= self@);
        }
        while i < n
            invariant
                i <= n,
                n == self.pairs.len(),
                n == self@.len(),
                spec_lookup(self@, name@) == spec_lookup(self@.skip(i as int), name@),
                forall|k: int| 0 <= k < n ==> self@[k] == (self.pairs@[k].0@, self.pairs@[k].1@),
            decreases n - i,
        {
            if str_eq(self.pairs[i].0.as_str(), name) {
                return Some(self.pairs[i].1.clone());
            }
            proof {
                assert(self@.skip(i as int)[0] == self@[i as int]);
                assert(self@.skip(i as int).drop_first() =~= self@.skip(i + 1 as int));
            }
            i = i + 1;
        }
        None
    }
}

/// The placeholder that a leading home shorthand `~` expands to.
pub open spec fn home_token() -> Seq<char> {
    seq!['%', 'U', 'S', 'E', 'R', 'P', 'R', 'O', 'F', 'I', 'L', 'E', '%']
}

/// The placeholder that a leading bare separator expands to.
pub open spec fn drive_token() -> Seq<char> {
    seq!['%', 'S', 'Y', 'S', 'T', 'E', 'M', 'D', 'R', 'I', 'V', 'E', '%']
}

/// Step one of resolution: every forward slash becomes the native separator.
pub open spec fn spec_normalize_seps(s: Seq<char>) -> Seq<char> {
    s.map_values(|c: char| if c == '/' { '\\' } else { c })
}

/// The index of the first `%` in `t`, or `t.len()` if there is none.
pub open spec fn first_pct(t: Seq<char>) -> int
    decreases t.len(),
{
    if t.len() == 0 {
        0
    } else if t[0] == '%' {
        0
    } else {
        1 + first_pct(t.drop_first())
    }
}

/// `s` with every `%` removed.
pub open spec fn drop_pcts(s: Seq<char>) -> Seq<char>
    decreases s.len(),
{
    if s.len() == 0 {
        s
    } else if s.last() == '%' {
        drop_pcts(s.drop_last())
    } else {
        drop_pcts(s.drop_last()).push(s.last())
    }
}

/// Step five of resolution: a missing trailing separator is added.
pub open spec fn spec_ensure_trailing(s: Seq<char>) -> Seq<char> {
    if s.len() > 0 && s.last() == '\\' {
        s
    } else {
        s.push('\\')
    }
}

/// Step six of resolution: every run of separators collapses to one (the
/// first of the run is kept).
pub open spec fn spec_collapse_seps(s: Seq<char>) -> Seq<char>
    decreases s.len(),
{
    if s.len() <= 1 {
        s
    } else if s.last() == '\\' && s[s.len() - 2] == '\\' {
        spec_collapse_seps(s.drop_last())
    } else {
        spec_collapse_seps(s.drop_last()).push(s.last())
    }
}

/// The final two steps of resolution, applied to every outcome.
pub open spec fn spec_finish(s: Seq<char>) -> Seq<char> {
    spec_collapse_seps(spec_ensure_trailing(s))
}

/// The whole resolution pipeline on character sequences, `Err` carrying the
/// name of the unresolved variable:
/// forward slashes become native separators; a leading `~` becomes the home
/// placeholder; a then-leading separator becomes the system-drive
/// placeholder; a leading `%` starts a variable reference whose name runs to
/// the next `%` (or to the end), and the resolved value, a separator, and the
/// remaining literal segments are joined; finally a trailing separator is
/// guaranteed and separator runs are collapsed.
pub open spec fn spec_resolve(raw: Seq<char>, env: Seq<(Seq<char>, Seq<char>)>) -> Result<
    Seq<char>,
    Seq<char>,
> {
    let s0 = spec_normalize_seps(raw);
    let s1 = if s0.len() > 0 && s0[0] == '~' {
        home_token() + s0.drop_first()
    } else {
        s0
    };
    let s2 = if s1.len() > 0 && s1[0] == '\\' {
        drive_token() + s1.drop_first()
    } else {
        s1
    };
    if s2.len() > 0 && s2[0] == '%' {
        let t = s2.drop_first();
        let p = first_pct(t);
        let name = t.take(p);
        let rest = if p < t.len() {
            drop_pcts(t.skip(p + 1))
        } else {
            Seq::<char>::empty()
        };
        match spec_lookup(env, name) {
            Some(val) => Ok(spec_finish(val + seq!['\\'] + rest)),
            None => Err(name),
        }
    } else {
        Ok(spec_finish(s2))
    }
}

/// No two adjacent native separators.
pub open spec fn no_doubled_seps(s: Seq<char>) -> bool {
    forall|i: int| 0 <= i < s.len() - 1 ==> !(#[trigger] s[i] == '\\' && s[i + 1] == '\\')
}

/// No forward slash anywhere.
pub open spec fn no_forward_slash(s: Seq<char>) -> bool {
    forall|i: int| 0 <= i < s.len() ==> #[trigger] s[i] != '/'
}

/// Collapsing keeps the first and last characters of a nonempty sequence.
pub proof fn lemma_collapse_ends(s: Seq<char>)
    requires
        s.len() > 0,
    ensures
        spec_collapse_seps(s).len() > 0,
        spec_collapse_seps(s).last() == s.last(),
        spec_collapse_seps(s).first() == s.first(),
    decreases s.len(),
{
    if s.len() > 1 {
        lemma_collapse_ends(s.drop_last());
    }
}

/// Collapsing leaves no doubled separator.
pub proof fn lemma_collapse_no_doubles(s: Seq<char>)
    ensures
        no_doubled_seps(spec_collapse_seps(s)),
    decreases s.len(),
{
    if s.len() > 1 {
        lemma_collapse_no_doubles(s.drop_last());
        if !(s.last() == '\\' && s[s.len() - 2] == '\\') {
            lemma_collapse_ends(s.drop_last());
            let c = spec_collapse_seps(s.drop_last());
            let r = c.push(s.last());
            assert forall|i: int| 0 <= i < r.len() - 1 implies !(#[trigger] r[i] == '\\' && r[i + 1]
                == '\\') by {
                if i + 1 < c.len() {
                    assert(r[i] == c[i] && r[i + 1] == c[i + 1]);
                } else {
                    assert(r[i] == c.last() && r[i + 1] == s.last());
                    assert(c.last() == s[s.len() - 2]);
                }
            }
        }
    }
}

/// Collapsing a sequence with no doubled separator changes nothing.
pub proof fn lemma_collapse_id(s: Seq<char>)
    requires
        no_doubled_seps(s),
    ensures
        spec_collapse_seps(s) == s,
    decreases s.len(),
{
    if s.len() > 1 {
        assert(!(s[s.len() - 2] == '\\' && s.last() == '\\'));
        assert(no_doubled_seps(s.drop_last()));
        lemma_collapse_id(s.drop_last());
        assert(s.drop_last().push(s.last()) =~= s);
    }
}

/// Collapsing introduces no forward slash.
pub proof fn lemma_collapse_no_slash(s: Seq<char>)
    requires
        no_forward_slash(s),
    ensures
        no_forward_slash(spec_collapse_seps(s)),
    decreases s.len(),
{
    if s.len() > 1 {
        assert(no_forward_slash(s.drop_last()));
        lemma_collapse_no_slash(s.drop_last());
    }
}

/// Adds a missing trailing separator, collapses separator runs, and renders
/// the result as a string.
fn finish_chars(v: Vec<char>) -> (r: String)
    ensures
        r@ == spec_finish(v@),
{
    let ghost orig = v@;
    let mut v = v;
    if v.len() == 0 || v[v.len() - 1] != '\\' {
        v.push('\\');
    }
    proof {
        assert(v@ == spec_ensure_trailing(orig));
    }
    let mut out: Vec<char> = Vec::new();
    let mut i: usize = 0;
    proof {
        assert(v@.take(0) =~= Seq::<char>::empty());
    }
    while i < v.len()
        invariant
            i <= v.len(),
            v@ == spec_ensure_trailing(orig),
            out@ == spec_collapse_seps(v@.take(i as int)),
        decreases v.len() - i,
    {
        let ghost pre = v@.take(i as int);
        let ghost cur = v@.take(i + 1 as int);
        proof {
            assert(cur.drop_last() =~= pre);
            assert(cur.last() == v@[i as int]);
        }
        if i > 0 && v[i] == '\\' && v[i - 1] == '\\' {
            proof {
                assert(cur[cur.len() - 2] == v@[i - 1 as int]);
                assert(spec_collapse_seps(cur) == spec_collapse_seps(pre));
            }
        } else {
            out.push(v[i]);
            proof {
                if i == 0 {
                    assert(spec_collapse_seps(cur) =~= cur);
                    assert(out@ =~= cur);
                } else {
                    assert(cur[cur.len() - 2] == v@[i - 1 as int]);
                    assert(spec_collapse_seps(cur) == spec_collapse_seps(pre).push(
                        v@[i as int],
                    ));
                }
            }
        }
        i = i + 1;
    }
    proof {
        assert(v@.take(v@.len() as int) =~= v@);
    }
    chars_to_string(&out)
}

/// `first_pct(t)` is the index of the first `%`: characterized by what stands
/// before it and at it.
proof fn lemma_first_pct_at(t: Seq<char>, i: int)
    requires
        0 <= i <= t.len(),
        forall|k: int| 0 <= k < i ==> t[k] != '%',
        i == t.len() || t[i] == '%',
    ensures
        first_pct(t) == i,
    decreases i,
{
    if i > 0 {
        lemma_first_pct_at(t.drop_first(), i - 1);
    }
}

/// Expands user-typed path syntax into a canonical path string, exactly as
/// [`spec_resolve`] describes, reading variables from the given snapshot.
///
/// The `Ok` value always has no doubled separator and exactly one trailing
/// separator, and — as long as every snapshot value is itself free of
/// forward slashes — native separators only; the `Err` value names the one
/// environment variable that could not be resolved.
#[verifier::rlimit(60)]
pub fn evaluate_path_vars(user_facing_path: &str, env: &EnvVars) -> (r: Result<String, PathError>)
    ensures
        match r {
            Ok(p) => spec_resolve(user_facing_path@, env@) == Ok::<Seq<char>, Seq<char>>(p@)
                && p@.len() > 0 && p@.last() == '\\' && no_doubled_seps(p@) && ((forall|j: int|
                0 <= j < env@.len() ==> no_forward_slash(#[trigger] env@[j].1))
                ==> no_forward_slash(p@)),
            Err(PathError::MissingVariable(n)) => spec_resolve(user_facing_path@, env@)
                == Err::<Seq<char>, Seq<char>>(n@),
        },
{
    proof {
        lemma_resolve_canonical(user_facing_path@, env@);
        if forall|j: int| 0 <= j < env@.len() ==> no_forward_slash(#[trigger] env@[j].1) {
            lemma_resolve_native_seps(user_facing_path@, env@);
        }
    }
    let raw = str_to_chars(user_facing_path);
    let ghost s0 = spec_normalize_seps(raw@);

    // Step one: native separators.
    let mut v: Vec<char> = Vec::new();
    let n = raw.len();
    let mut i: usize = 0;
    proof {
        assert(v@ =~= s0.take(0));
    }
    while i < n
        invariant
            i <= n,
            n == raw@.len(),
            s0 == spec_normalize_seps(raw@),
            v@ == s0.take(i as int),
        decreases n - i,
    {
        let c = raw[i];
        v.push(if c == '/' { '\\' } else { c });
        proof {
            assert(s0.take(i + 1 as int) =~= s0.take(i as int).push(s0[i as int]));
        }
        i = i + 1;
    }
    proof {
        assert(s0.take(n as int) =~= s0);
    }

    // Step two: the home shorthand.
    let ghost s1 = if s0.len() > 0 && s0[0] == '~' { home_token() + s0.drop_first() } else { s0 };
    if v.len() > 0 && v[0] == '~' {
        let mut w = str_to_chars("%USERPROFILE%");
        proof {
            reveal_strlit("%USERPROFILE%");
            assert(w@ =~= home_token());
        }
        let mut j: usize = 1;
        while j < v.len()
            invariant
                1 <= j <= v@.len(),
                v@.len() > 0,
                w@ == home_token() + v@.subrange(1, j as int),
            decreases v.len() - j,
        {
            w.push(v[j]);
            proof {
                assert(home_token() + v@.subrange(1, j + 1 as int) =~= (home_token()
                    + v@.subrange(1, j as int)).push(v@[j as int]));
            }
            j = j + 1;
        }
        proof {
            assert(v@.subrange(1, v@.len() as int) =~= v@.drop_first());
            assert(w@ == s1);
        }
        v = w;
    }
    proof {
        assert(v@ == s1);
    }

    // Step three: a leading bare separator names the system drive.
    let ghost s2 = if s1.len() > 0 && s1[0] == '\\' {
        drive_token() + s1.drop_first()
    } else {
        s1
    };
    if v.len() > 0 && v[0] == '\\' {
        let mut w = str_to_chars("%SYSTEMDRIVE%");
        proof {
            reveal_strlit("%SYSTEMDRIVE%");
            assert(w@ =~= drive_token());
        }
        let mut j: usize = 1;
        while j < v.len()
            invariant
                1 <= j <= v@.len(),
                v@.len() > 0,
                w@ == drive_token() + v@.subrange(1, j as int),
            decreases v.len() - j,
        {
            w.push(v[j]);
            proof {
                assert(drive_token() + v@.subrange(1, j + 1 as int) =~= (drive_token()
                    + v@.subrange(1, j as int)).push(v@[j as int]));
            }
            j = j + 1;
        }
        proof {
            assert(v@.subrange(1, v@.len() as int) =~= v@.drop_first());
            assert(w@ == s2);
        }
        v = w;
    }
    proof {
        assert(v@ == s2);
    }

    // Step four: a leading delimiter names an environment variable.
    if v.len() > 0 && v[0] == '%' {
        let ghost t = s2.drop_first();
        proof {
            assert(t =~= v@.subrange(1, v@.len() as int));
        }
        // The name runs to the next delimiter, or to the end.
        let mut idx: usize = 1;
        while idx < v.len() && v[idx] != '%'
            invariant
                1 <= idx <= v@.len(),
                forall|k: int| 1 <= k < idx ==> v@[k] != '%',
            decreases v.len() - idx,
        {
            idx = idx + 1;
        }
        let ghost p = first_pct(t);
        proof {
            lemma_first_pct_at(t, idx - 1);
            assert(p == idx - 1);
        }
        let mut name_chars: Vec<char> = Vec::new();
        let mut k: usize = 1;
        proof {
            assert(name_chars@ =~= v@.subrange(1, 1));
        }
        while k < idx
            invariant
                1 <= k <= idx,
                idx <= v@.len(),
                name_chars@ == v@.subrange(1, k as int),
            decreases idx - k,
        {
            name_chars.push(v[k]);
            proof {
                assert(v@.subrange(1, k + 1 as int) =~= v@.subrange(1, k as int).push(
                    v@[k as int],
                ));
            }
            k = k + 1;
        }
        proof {
            assert(name_chars@ =~= t.take(p));
        }
        let name_str = chars_to_string(&name_chars);
        match env.get(name_str.as_str()) {
            None => Err(PathError::MissingVariable(name_str)),
            Some(val) => {
                let mut w = str_to_chars(val.as_str());
                w.push('\\');
                let ghost base = val@ + seq!['\\'];
                proof {
                    assert(w@ =~= base);
                }
                let ghost rest = if p < t.len() {
                    drop_pcts(t.skip(p + 1))
                } else {
                    Seq::<char>::empty()
                };
                if idx < v.len() {
                    let mut k2: usize = idx + 1;
                    proof {
                        assert(drop_pcts(v@.subrange(idx + 1 as int, idx + 1 as int)) =~= Seq::<
                            char,
                        >::empty());
                    }
                    while k2 < v.len()
                        invariant
                            idx + 1 <= k2 <= v@.len(),
                            idx < v@.len(),
                            w@ == base + drop_pcts(v@.subrange(idx + 1 as int, k2 as int)),
                        decreases v.len() - k2,
                    {
                        let ghost seg = v@.subrange(idx + 1 as int, k2 as int);
                        let ghost segx = v@.subrange(idx + 1 as int, k2 + 1 as int);
                        proof {
                            assert(segx.drop_last() =~= seg);
                            assert(segx.last() == v@[k2 as int]);
                        }
                        if v[k2] != '%' {
                            w.push(v[k2]);
                            proof {
                                assert(base + drop_pcts(segx) =~= (base + drop_pcts(seg)).push(
                                    v@[k2 as int],
                                ));
                            }
                        } else {
                            proof {
                                assert(base + drop_pcts(segx) == base + drop_pcts(seg));
                            }
                        }
                        k2 = k2 + 1;
                    }
                    proof {
                        assert(v@.subrange(idx + 1 as int, v@.len() as int) =~= t.skip(p + 1));
                        assert(w@ == base + rest);
                    }
                } else {
                    proof {
                        assert(base + rest =~= base);
                    }
                }
                proof {
                    assert(w@ == val@ + seq!['\\'] + rest);
                }
                Ok(finish_chars(w))
            },
        }
    } else {
        Ok(finish_chars(v))
    }
}

/// Every `Ok` outcome of resolution has the canonical shape: nonempty, a
/// trailing separator, and no doubled separator (hence exactly one at the
/// end).
pub proof fn lemma_resolve_canonical(raw: Seq<char>, env: Seq<(Seq<char>, Seq<char>)>)
    ensures
        spec_resolve(raw, env) matches Ok(p) ==> p.len() > 0 && p.last() == '\\'
            && no_doubled_seps(p),
{
    if spec_resolve(raw, env) is Ok {
        let s0 = spec_normalize_seps(raw);
        let s1 = if s0.len() > 0 && s0[0] == '~' {
            home_token() + s0.drop_first()
        } else {
            s0
        };
        let s2 = if s1.len() > 0 && s1[0] == '\\' {
            drive_token() + s1.drop_first()
        } else {
            s1
        };
        if s2.len() > 0 && s2[0] == '%' {
            let t = s2.drop_first();
            let p = first_pct(t);
            let rest = if p < t.len() {
                drop_pcts(t.skip(p + 1))
            } else {
                Seq::<char>::empty()
            };
            let val = spec_lookup(env, t.take(p)).unwrap();
            let joined = val + seq!['\\'] + rest;
            lemma_collapse_ends(spec_ensure_trailing(joined));
            lemma_collapse_no_doubles(spec_ensure_trailing(joined));
        } else {
            lemma_collapse_ends(spec_ensure_trailing(s2));
            lemma_collapse_no_doubles(spec_ensure_trailing(s2));
        }
    }
}

/// A successful lookup returns one of the snapshot's values.
proof fn lemma_lookup_value(env: Seq<(Seq<char>, Seq<char>)>, name: Seq<char>)
    ensures
        spec_lookup(env, name) matches Some(v) ==> exists|j: int|
            0 <= j < env.len() && #[trigger] env[j].1 == v,
    decreases env.len(),
{
    if env.len() > 0 && env[0].0 != name {
        lemma_lookup_value(env.drop_first(), name);
        if spec_lookup(env, name) is Some {
            let v = spec_lookup(env, name).unwrap();
            let j = choose|j: int| 0 <= j < env.drop_first().len() && #[trigger] env.drop_first(
            )[j].1 == v;
            assert(env[j + 1].1 == v);
        }
    }
}

/// The first-delimiter index lies within the sequence.
proof fn lemma_first_pct_range(t: Seq<char>)
    ensures
        0 <= first_pct(t) <= t.len(),
    decreases t.len(),
{
    if t.len() > 0 && t[0] != '%' {
        lemma_first_pct_range(t.drop_first());
    }
}

/// Removing delimiters introduces no forward slash.
proof fn lemma_drop_pcts_no_slash(s: Seq<char>)
    requires
        no_forward_slash(s),
    ensures
        no_forward_slash(drop_pcts(s)),
    decreases s.len(),
{
    if s.len() > 0 {
        assert(no_forward_slash(s.drop_last()));
        lemma_drop_pcts_no_slash(s.drop_last());
    }
}

/// Where every value in the snapshot is free of forward slashes, so is every
/// `Ok` outcome of resolution: the canonical path has native separators only.
pub proof fn lemma_resolve_native_seps(raw: Seq<char>, env: Seq<(Seq<char>, Seq<char>)>)
    requires
        forall|j: int| 0 <= j < env.len() ==> no_forward_slash(#[trigger] env[j].1),
    ensures
        spec_resolve(raw, env) matches Ok(p) ==> no_forward_slash(p),
{
    let s0 = spec_normalize_seps(raw);
    assert(no_forward_slash(s0));
    let s1 = if s0.len() > 0 && s0[0] == '~' {
        home_token() + s0.drop_first()
    } else {
        s0
    };
    assert(no_forward_slash(home_token()));
    assert(no_forward_slash(drive_token()));
    assert(no_forward_slash(s1));
    let s2 = if s1.len() > 0 && s1[0] == '\\' {
        drive_token() + s1.drop_first()
    } else {
        s1
    };
    assert(no_forward_slash(s2));
    if spec_resolve(raw, env) is Ok {
        if s2.len() > 0 && s2[0] == '%' {
            let t = s2.drop_first();
            let p = first_pct(t);
            let rest = if p < t.len() {
                drop_pcts(t.skip(p + 1))
            } else {
                Seq::<char>::empty()
            };
            let val = spec_lookup(env, t.take(p)).unwrap();
            lemma_lookup_value(env, t.take(p));
            assert(no_forward_slash(val));
            assert(no_forward_slash(t));
            if p < t.len() {
                lemma_first_pct_range(t);
                assert forall|i: int| 0 <= i < t.skip(p + 1).len() implies #[trigger] t.skip(
                    p + 1,
                )[i] != '/' by {
                    assert(t.skip(p + 1)[i] == t[p + 1 + i]);
                }
                lemma_drop_pcts_no_slash(t.skip(p + 1));
            }
            let joined = val + seq!['\\'] + rest;
            assert(no_forward_slash(joined));
            assert(no_forward_slash(spec_ensure_trailing(joined)));
            lemma_collapse_no_slash(spec_ensure_trailing(joined));
        } else {
            assert(no_forward_slash(spec_ensure_trailing(s2)));
            lemma_collapse_no_slash(spec_ensure_trailing(s2));
        }
    }
}

/// Resolution is idempotent: a path that is already canonical — nonempty,
/// native separators only, no doubled separator, one trailing separator, and
/// no unresolved shorthand or variable at its head — resolves to itself, so
/// resolving a second time changes nothing.
pub proof fn lemma_resolve_idempotent(p: Seq<char>, env: Seq<(Seq<char>, Seq<char>)>)
    requires
        p.len() > 0,
        p.last() == '\\',
        no_doubled_seps(p),
        no_forward_slash(p),
        p[0] != '~',
        p[0] != '\\',
        p[0] != '%',
    ensures
        spec_resolve(p, env) == Ok::<Seq<char>, Seq<char>>(p),
{
    assert(spec_normalize_seps(p) =~= p);
    assert(spec_ensure_trailing(p) == p);
    lemma_collapse_id(p);
}

} // verus!
