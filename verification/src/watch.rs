//! Watch-mode change detection: a registry of the last-seen modification
//! time of every input file, and the per-tick decision which files need
//! recompiling. A tick hands in what the walk observed — each file's path
//! with its current modification time — and gets back the paths to
//! recompile: files never seen before, and files whose observed time is
//! strictly newer than the recorded one; the registry then records the
//! newly observed time. Deleted files are never pruned and never trigger
//! anything. The polling loop, the sleeping and the filesystem reads stay
//! with the caller.
use vstd::prelude::*;

verus! {

/// The registry: an association of input paths to the modification time
/// last seen for them, each path present at most once.
pub struct ModRegistry {
    paths: Vec<String>,
    times: Vec<u64>,
}

/// No path occurs twice.
pub open spec fn reg_wf(m: Seq<(Seq<char>, u64)>) -> bool {
    forall|i: int, j: int| 0 <= i < j < m.len() ==> m[i].0 != m[j].0
}

/// The recorded time of `k` in `m[i ..]`, if any.
pub open spec fn lookup_from(m: Seq<(Seq<char>, u64)>, k: Seq<char>, i: int) -> Option<u64>
    decreases m.len() - i
    when 0 <= i <= m.len()
{
    if i >= m.len() {
        None
    } else if m[i].0 == k {
        Some(m[i].1)
    } else {
        lookup_from(m, k, i + 1)
    }
}

/// The recorded time of `k`, if any.
pub open spec fn lookup(m: Seq<(Seq<char>, u64)>, k: Seq<char>) -> Option<u64> {
    lookup_from(m, k, 0)
}

/// The registry with every entry for `k` set to time `t`.
pub open spec fn updated(m: Seq<(Seq<char>, u64)>, k: Seq<char>, t: u64) -> Seq<(Seq<char>, u64)> {
    Seq::new(m.len(), |i: int| if m[i].0 == k { (k, t) } else { m[i] })
}

/// Whether observing `(k, t)` triggers a recompilation: the path is new,
/// or its observed time is strictly newer than the recorded one.
pub open spec fn step_triggers(m: Seq<(Seq<char>, u64)>, k: Seq<char>, t: u64) -> bool {
    match lookup(m, k) {
        None => true,
        Some(o) => t > o,
    }
}

/// The registry after observing `(k, t)`: a new path is inserted with its
/// observed time, a newer time replaces the recorded one, and an
/// observation no newer than the record changes nothing.
pub open spec fn step_reg(m: Seq<(Seq<char>, u64)>, k: Seq<char>, t: u64) -> Seq<
    (Seq<char>, u64),
> {
    match lookup(m, k) {
        None => m.push((k, t)),
        Some(o) => if t > o {
            updated(m, k, t)
        } else {
            m
        },
    }
}

/// The observations of a tick, by view.
pub open spec fn obs_view(v: Seq<(String, u64)>) -> Seq<(Seq<char>, u64)> {
    v.map_values(|p: (String, u64)| (p.0@, p.1))
}

/// A list of paths, by view.
pub open spec fn strs_view(v: Seq<String>) -> Seq<Seq<char>> {
    v.map_values(|s: String| s@)
}

/// The registry after a tick has processed the observations `obs[i ..]`,
/// in order.
pub open spec fn tick_reg(
    m: Seq<(Seq<char>, u64)>,
    obs: Seq<(Seq<char>, u64)>,
    i: int,
) -> Seq<(Seq<char>, u64)>
    decreases obs.len() - i
    when 0 <= i <= obs.len()
{
    if i >= obs.len() {
        m
    } else {
        tick_reg(step_reg(m, obs[i].0, obs[i].1), obs, i + 1)
    }
}

/// The paths a tick recompiles while processing `obs[i ..]`, in order.
pub open spec fn tick_out(
    m: Seq<(Seq<char>, u64)>,
    obs: Seq<(Seq<char>, u64)>,
    i: int,
) -> Seq<Seq<char>>
    decreases obs.len() - i
    when 0 <= i <= obs.len()
{
    if i >= obs.len() {
        Seq::empty()
    } else {
        (if step_triggers(m, obs[i].0, obs[i].1) {
            seq![obs[i].0]
        } else {
            Seq::empty()
        }) + tick_out(step_reg(m, obs[i].0, obs[i].1), obs, i + 1)
    }
}

/// How often a path occurs in a tick's output.
pub open spec fn count_of(s: Seq<Seq<char>>, p: Seq<char>) -> nat
    decreases s.len(),
{
    if s.len() == 0 {
        0
    } else {
        (if s[0] == p {
            1nat
        } else {
            0nat
        }) + count_of(s.drop_first(), p)
    }
}

impl View for ModRegistry {
    type V = Seq<(Seq<char>, u64)>;

    closed spec fn view(&self) -> Seq<(Seq<char>, u64)> {
        Seq::new(self.paths@.len(), |i: int| (self.paths@[i]@, self.times@[i]))
    }
}

impl ModRegistry {
    /// The structural invariant: the two columns line up, and no path
    /// occurs twice.
    pub closed spec fn inv(self) -> bool {
        &&& self.paths@.len() == self.times@.len()
        &&& reg_wf(self@)
    }

    /// An empty registry: nothing has been observed yet.
    pub fn new() -> (r: ModRegistry)
        ensures
            r.inv(),
            r@ == Seq::<(Seq<char>, u64)>::empty(),
    {
        let r = ModRegistry { paths: Vec::new(), times: Vec::new() };
        proof {
            assert(r@ =~= Seq::<(Seq<char>, u64)>::empty());
        }
        r
    }

    /// Observes one file: records a new path or a newer time, and says
    /// whether this observation calls for a recompilation.
    pub fn observe(&mut self, path: &String, time: u64) -> (trig: bool)
        requires
            old(self).inv(),
        ensures
            final(self).inv(),
            final(self)@ == step_reg(old(self)@, path@, time),
            trig == step_triggers(old(self)@, path@, time),
    {
        let n: usize = self.paths.len();
        let mut i: usize = 0;
        while i < n
            invariant
                *self == *old(self),
                old(self).inv(),
                i <= n,
                n == self.paths@.len(),
                forall|j: int| 0 <= j < i ==> old(self)@[j].0 != path@,
            decreases n - i,
        {
            if self.paths[i] == *path {
                proof {
                    lemma_lookup_at(self@, path@, i as int, 0);
                }
                if time > self.times[i] {
                    self.times.set(i, time);
                    proof {
                        assert(self@ =~= updated(old(self)@, path@, time));
                    }
                    return true;
                } else {
                    return false;
                }
            }
            i = i + 1;
        }
        proof {
            lemma_lookup_absent(self@, path@, 0);
        }
        self.paths.push(path.clone());
        self.times.push(time);
        proof {
            assert(self@ =~= old(self)@.push((path@, time)));
        }
        true
    }

    /// One polling tick: processes every observation in order and returns
    /// the paths to recompile — new files and files observed with a
    /// strictly newer modification time, whose records are refreshed to
    /// the newly observed value.
    pub fn tick(&mut self, observed: &Vec<(String, u64)>) -> (r: Vec<String>)
        requires
            old(self).inv(),
        ensures
            final(self).inv(),
            final(self)@ == tick_reg(old(self)@, obs_view(observed@), 0),
            strs_view(r@) == tick_out(old(self)@, obs_view(observed@), 0),
    {
        let ghost m0 = self@;
        let ghost obs = obs_view(observed@);
        let mut r: Vec<String> = Vec::new();
        let mut i: usize = 0;
        proof {
            assert(strs_view(r@) + tick_out(self@, obs, 0) =~= tick_out(m0, obs, 0));
        }
        while i < observed.len()
            invariant
                i <= observed@.len(),
                obs == obs_view(observed@),
                self.inv(),
                tick_reg(self@, obs, i as int) == tick_reg(m0, obs, 0),
                strs_view(r@) + tick_out(self@, obs, i as int) == tick_out(m0, obs, 0),
            decreases observed@.len() - i,
        {
            let ghost mprev = self@;
            let ghost rprev = r@;
            let pair = &observed[i];
            let trig = self.observe(&pair.0, pair.1);
            proof {
                assert(obs[i as int] == (pair.0@, pair.1));
            }
            if trig {
                r.push(pair.0.clone());
                proof {
                    assert(strs_view(r@) =~= strs_view(rprev).push(pair.0@));
                    assert(strs_view(r@) + tick_out(self@, obs, i + 1) =~= strs_view(rprev)
                        + tick_out(mprev, obs, i as int));
                }
            } else {
                proof {
                    assert(strs_view(r@) + tick_out(self@, obs, i + 1) =~= strs_view(rprev)
                        + tick_out(mprev, obs, i as int));
                }
            }
            i = i + 1;
        }
        proof {
            assert(strs_view(r@) + tick_out(self@, obs, observed@.len() as int) =~= strs_view(r@));
        }
        r
    }
}

// --- Facts about lookup -----------------------------------------------------

proof fn lemma_lookup_at(m: Seq<(Seq<char>, u64)>, k: Seq<char>, idx: int, i: int)
    requires
        0 <= i <= idx < m.len(),
        m[idx].0 == k,
        forall|j: int| i <= j < idx ==> m[j].0 != k,
    ensures
        lookup_from(m, k, i) == Some(m[idx].1),
    decreases idx - i,
{
    if i < idx {
        lemma_lookup_at(m, k, idx, i + 1);
    }
}

proof fn lemma_lookup_absent(m: Seq<(Seq<char>, u64)>, k: Seq<char>, i: int)
    requires
        0 <= i <= m.len(),
        forall|j: int| i <= j < m.len() ==> m[j].0 != k,
    ensures
        lookup_from(m, k, i) is None,
    decreases m.len() - i,
{
    if i < m.len() {
        lemma_lookup_absent(m, k, i + 1);
    }
}

proof fn lemma_lookup_none_forall(m: Seq<(Seq<char>, u64)>, k: Seq<char>, i: int)
    requires
        0 <= i <= m.len(),
        lookup_from(m, k, i) is None,
    ensures
        forall|j: int| i <= j < m.len() ==> m[j].0 != k,
    decreases m.len() - i,
{
    if i < m.len() {
        lemma_lookup_none_forall(m, k, i + 1);
    }
}

proof fn lemma_lookup_from_push(
    m: Seq<(Seq<char>, u64)>,
    k: Seq<char>,
    t: u64,
    q: Seq<char>,
    i: int,
)
    requires
        0 <= i <= m.len(),
    ensures
        lookup_from(m.push((k, t)), q, i) == (match lookup_from(m, q, i) {
            Some(v) => Some(v),
            None => if q == k {
                Some(t)
            } else {
                None
            },
        }),
    decreases m.len() - i,
{
    if i < m.len() {
        assert(m.push((k, t))[i] == m[i]);
        lemma_lookup_from_push(m, k, t, q, i + 1);
    } else {
        assert(m.push((k, t))[i] == (k, t));
        assert(lookup_from(m.push((k, t)), q, i + 1) is None);
    }
}

proof fn lemma_lookup_from_updated(
    m: Seq<(Seq<char>, u64)>,
    k: Seq<char>,
    t: u64,
    q: Seq<char>,
    i: int,
)
    requires
        0 <= i <= m.len(),
    ensures
        lookup_from(updated(m, k, t), q, i) == (if q == k {
            match lookup_from(m, k, i) {
                Some(_) => Some(t),
                None => None,
            }
        } else {
            lookup_from(m, q, i)
        }),
    decreases m.len() - i,
{
    if i < m.len() {
        lemma_lookup_from_updated(m, k, t, q, i + 1);
    }
}

/// One observation of `k` never changes what is recorded for another path.
proof fn lemma_step_preserves_other(m: Seq<(Seq<char>, u64)>, k: Seq<char>, t: u64, q: Seq<char>)
    requires
        q != k,
    ensures
        lookup(step_reg(m, k, t), q) == lookup(m, q),
{
    lemma_lookup_from_push(m, k, t, q, 0);
    lemma_lookup_from_updated(m, k, t, q, 0);
}

/// After observing `(k, t)`, the record for `k` is `t` when the
/// observation triggered, and unchanged when it did not.
proof fn lemma_step_lookup_self(m: Seq<(Seq<char>, u64)>, k: Seq<char>, t: u64)
    ensures
        step_triggers(m, k, t) ==> lookup(step_reg(m, k, t), k) == Some(t),
        !step_triggers(m, k, t) ==> lookup(step_reg(m, k, t), k) == lookup(m, k),
{
    lemma_lookup_from_push(m, k, t, k, 0);
    lemma_lookup_from_updated(m, k, t, k, 0);
}

/// An observation keeps the registry free of duplicate paths.
proof fn lemma_step_wf(m: Seq<(Seq<char>, u64)>, k: Seq<char>, t: u64)
    requires
        reg_wf(m),
    ensures
        reg_wf(step_reg(m, k, t)),
{
    match lookup(m, k) {
        None => {
            lemma_lookup_none_forall(m, k, 0);
            assert(reg_wf(m.push((k, t))));
        },
        Some(o) => {
            if t > o {
                assert forall|i: int, j: int|
                    0 <= i < j < updated(m, k, t).len() implies updated(m, k, t)[i].0 != updated(
                    m,
                    k,
                    t,
                )[j].0 by {
                    assert(updated(m, k, t)[i].0 == m[i].0);
                    assert(updated(m, k, t)[j].0 == m[j].0);
                }
            }
        },
    }
}

/// A whole tick keeps the registry free of duplicate paths.
proof fn lemma_tick_wf(m: Seq<(Seq<char>, u64)>, obs: Seq<(Seq<char>, u64)>, i: int)
    requires
        0 <= i <= obs.len(),
        reg_wf(m),
    ensures
        reg_wf(tick_reg(m, obs, i)),
    decreases obs.len() - i,
{
    if i < obs.len() {
        lemma_step_wf(m, obs[i].0, obs[i].1);
        lemma_tick_wf(step_reg(m, obs[i].0, obs[i].1), obs, i + 1);
    }
}

// --- Counting helpers -------------------------------------------------------

proof fn lemma_count_concat(a: Seq<Seq<char>>, b: Seq<Seq<char>>, p: Seq<char>)
    ensures
        count_of(a + b, p) == count_of(a, p) + count_of(b, p),
    decreases a.len(),
{
    if a.len() == 0 {
        assert(a + b =~= b);
    } else {
        assert((a + b).drop_first() =~= a.drop_first() + b);
        assert((a + b)[0] == a[0]);
        lemma_count_concat(a.drop_first(), b, p);
    }
}

proof fn lemma_count_single(x: Seq<char>, p: Seq<char>)
    ensures
        count_of(seq![x], p) == (if x == p {
            1nat
        } else {
            0nat
        }),
{
    assert(seq![x].len() == 1);
    assert(seq![x][0] == x);
    assert(seq![x].drop_first() =~= Seq::<Seq<char>>::empty());
    assert(count_of(Seq::<Seq<char>>::empty(), p) == 0);
}

// --- The detection laws -----------------------------------------------------

/// A tick whose remaining observations never mention `p` neither
/// recompiles `p` nor changes its record.
proof fn lemma_tick_skips(
    m: Seq<(Seq<char>, u64)>,
    obs: Seq<(Seq<char>, u64)>,
    p: Seq<char>,
    i: int,
)
    requires
        0 <= i <= obs.len(),
        forall|k: int| i <= k < obs.len() ==> obs[k].0 != p,
    ensures
        count_of(tick_out(m, obs, i), p) == 0,
        lookup(tick_reg(m, obs, i), p) == lookup(m, p),
    decreases obs.len() - i,
{
    if i < obs.len() {
        let m2 = step_reg(m, obs[i].0, obs[i].1);
        lemma_step_preserves_other(m, obs[i].0, obs[i].1, p);
        lemma_tick_skips(m2, obs, p, i + 1);
        let head: Seq<Seq<char>> = if step_triggers(m, obs[i].0, obs[i].1) {
            seq![obs[i].0]
        } else {
            Seq::empty()
        };
        lemma_count_single(obs[i].0, p);
        lemma_count_concat(head, tick_out(m2, obs, i + 1), p);
    }
}

proof fn lemma_tick_detects_from(
    m: Seq<(Seq<char>, u64)>,
    obs: Seq<(Seq<char>, u64)>,
    p: Seq<char>,
    t: u64,
    j: int,
    i: int,
)
    requires
        reg_wf(m),
        0 <= i <= j < obs.len(),
        obs[j] == (p, t),
        forall|k: int| i <= k < obs.len() && k != j ==> obs[k].0 != p,
        match lookup(m, p) {
            Some(o) => t > o,
            None => true,
        },
    ensures
        count_of(tick_out(m, obs, i), p) == 1,
        lookup(tick_reg(m, obs, i), p) == Some(t),
    decreases obs.len() - i,
{
    let m2 = step_reg(m, obs[i].0, obs[i].1);
    let head: Seq<Seq<char>> = if step_triggers(m, obs[i].0, obs[i].1) {
        seq![obs[i].0]
    } else {
        Seq::empty()
    };
    lemma_count_single(obs[i].0, p);
    lemma_count_concat(head, tick_out(m2, obs, i + 1), p);
    lemma_step_wf(m, obs[i].0, obs[i].1);
    if i == j {
        assert(step_triggers(m, p, t));
        lemma_step_lookup_self(m, p, t);
        lemma_tick_skips(m2, obs, p, i + 1);
    } else {
        lemma_step_preserves_other(m, obs[i].0, obs[i].1, p);
        lemma_tick_detects_from(m2, obs, p, t, j, i + 1);
    }
}

proof fn lemma_tick_unchanged_from(
    m: Seq<(Seq<char>, u64)>,
    obs: Seq<(Seq<char>, u64)>,
    p: Seq<char>,
    o: u64,
    i: int,
)
    requires
        reg_wf(m),
        0 <= i <= obs.len(),
        lookup(m, p) == Some(o),
        forall|k: int| i <= k < obs.len() ==> (obs[k].0 == p ==> obs[k].1 <= o),
    ensures
        count_of(tick_out(m, obs, i), p) == 0,
        lookup(tick_reg(m, obs, i), p) == Some(o),
    decreases obs.len() - i,
{
    if i < obs.len() {
        let m2 = step_reg(m, obs[i].0, obs[i].1);
        let head: Seq<Seq<char>> = if step_triggers(m, obs[i].0, obs[i].1) {
            seq![obs[i].0]
        } else {
            Seq::empty()
        };
        lemma_count_single(obs[i].0, p);
        lemma_count_concat(head, tick_out(m2, obs, i + 1), p);
        lemma_step_wf(m, obs[i].0, obs[i].1);
        if obs[i].0 == p {
            assert(!step_triggers(m, p, obs[i].1));
            assert(m2 == m);
        } else {
            lemma_step_preserves_other(m, obs[i].0, obs[i].1, p);
        }
        lemma_tick_unchanged_from(m2, obs, p, o, i + 1);
    }
}

/// Watch-mode detection, first half: a tick that observes a brand-new
/// file, or a file with a strictly newer modification time than recorded,
/// recompiles exactly that file exactly once in that tick, and afterwards
/// the registry records the newly observed time.
pub proof fn lemma_tick_compiles_changed_file_once(
    m: Seq<(Seq<char>, u64)>,
    obs: Seq<(Seq<char>, u64)>,
    p: Seq<char>,
    t: u64,
    j: int,
)
    requires
        reg_wf(m),
        0 <= j < obs.len(),
        obs[j] == (p, t),
        forall|k: int| 0 <= k < obs.len() && k != j ==> obs[k].0 != p,
        match lookup(m, p) {
            Some(o) => t > o,
            None => true,
        },
    ensures
        count_of(tick_out(m, obs, 0), p) == 1,
        lookup(tick_reg(m, obs, 0), p) == Some(t),
{
    lemma_tick_detects_from(m, obs, p, t, j, 0);
}

/// Watch-mode detection, second half: a tick that observes a file with no
/// newer modification time than recorded does not recompile it, and its
/// record stays as it was.
pub proof fn lemma_tick_ignores_unchanged_file(
    m: Seq<(Seq<char>, u64)>,
    obs: Seq<(Seq<char>, u64)>,
    p: Seq<char>,
    o: u64,
)
    requires
        reg_wf(m),
        lookup(m, p) == Some(o),
        forall|k: int| 0 <= k < obs.len() ==> (obs[k].0 == p ==> obs[k].1 <= o),
    ensures
        count_of(tick_out(m, obs, 0), p) == 0,
        lookup(tick_reg(m, obs, 0), p) == Some(o),
{
    lemma_tick_unchanged_from(m, obs, p, o, 0);
}

/// Touching a file causes exactly one recompilation: the tick that sees
/// the strictly newer time recompiles it once, and a further tick over the
/// same observations recompiles it no more.
pub proof fn lemma_touch_recompiles_exactly_once(
    m: Seq<(Seq<char>, u64)>,
    obs: Seq<(Seq<char>, u64)>,
    p: Seq<char>,
    t: u64,
    j: int,
)
    requires
        reg_wf(m),
        0 <= j < obs.len(),
        obs[j] == (p, t),
        forall|k: int| 0 <= k < obs.len() && k != j ==> obs[k].0 != p,
        match lookup(m, p) {
            Some(o) => t > o,
            None => true,
        },
    ensures
        count_of(tick_out(m, obs, 0), p) == 1,
        count_of(tick_out(tick_reg(m, obs, 0), obs, 0), p) == 0,
{
    lemma_tick_compiles_changed_file_once(m, obs, p, t, j);
    lemma_tick_wf(m, obs, 0);
    lemma_tick_ignores_unchanged_file(tick_reg(m, obs, 0), obs, p, t);
}

} // verus!
