//! The schedule by which users are spawned: how many users of each type are
//! started at every step, and how long to wait before the next step.

use vstd::prelude::*;

use tokio::sync::mpsc::UnboundedSender;
use tokio_util::sync::CancellationToken;

use crate::runtime::send_unbounded;

verus! {

/// How many users a controller has ordered so far, and the counts it sent,
/// oldest first.
struct SpawnProgress {
    total_spawned: u64,
    sent: Ghost<Seq<u64>>,
}

/// Tells the spawner of one user type how many users to start.
pub struct UserSpawnController {
    user_name: &'static str,
    count: u64,
    progress: SpawnProgress,
    spawn_tx: UnboundedSender<u64>,
}

/// The mathematical content of a `UserSpawnController`: the user type, how
/// many users of it are to be spawned in all, how many were ordered so far,
/// and the counts sent to its spawner, oldest first.
pub struct SpawnControllerView {
    pub user_name: &'static str,
    pub count: nat,
    pub total_spawned: nat,
    pub sent: Seq<u64>,
}

impl View for UserSpawnController {
    type V = SpawnControllerView;

    closed spec fn view(&self) -> SpawnControllerView {
        SpawnControllerView {
            user_name: self.user_name,
            count: self.count as nat,
            total_spawned: self.progress.total_spawned as nat,
            sent: self.progress.sent@,
        }
    }
}

impl UserSpawnController {
    /// A controller never orders more users than it is to spawn, and what it
    /// ordered is what it sent.
    #[verifier::type_invariant]
    spec fn orders_add_up(self) -> bool {
        &&& self.progress.total_spawned <= self.count
        &&& self.progress.total_spawned == seq_sum(self.progress.sent@)
    }

    pub fn new(user_name: &'static str, count: u64, spawn_tx: UnboundedSender<u64>) -> (res: Self)
        ensures
            res@ == (SpawnControllerView {
                user_name,
                count: count as nat,
                total_spawned: 0,
                sent: Seq::empty(),
            }),
    {
        let progress = SpawnProgress { total_spawned: 0, sent: Ghost(Seq::empty()) };
        UserSpawnController { user_name, count, progress, spawn_tx }
    }

    /// Orders the spawner to start `count` more users, and counts them as
    /// ordered. The log records the value that was handed to the channel.
    fn send_spawn_count(&mut self, count: u64)
        requires
            old(self)@.total_spawned + count <= old(self)@.count,
        ensures
            final(self)@ == (SpawnControllerView {
                total_spawned: (old(self)@.total_spawned + count) as nat,
                sent: old(self)@.sent.push(count),
                ..old(self)@
            }),
    {
        proof {
            use_type_invariant(&*self);
        }
        let handed = send_unbounded(&self.spawn_tx, count);
        let ghost sent = self.progress.sent@;
        proof {
            assert(sent.push(handed@).drop_last() =~= sent);
        }
        self.progress = SpawnProgress {
            total_spawned: self.progress.total_spawned + count,
            sent: Ghost(sent.push(handed@)),
        };
    }

    pub fn get_user_name(&self) -> (res: &'static str)
        ensures
            res == self@.user_name,
    {
        self.user_name
    }

    pub fn get_count(&self) -> (res: u64)
        ensures
            res == self@.count,
    {
        self.count
    }

    pub fn get_total_spawned(&self) -> (res: u64)
        ensures
            res == self@.total_spawned,
    {
        self.progress.total_spawned
    }
}

/// The users still to be spawned, over all controllers.
pub open spec fn capacity(s: Seq<SpawnControllerView>) -> int
    decreases s.len(),
{
    if s.len() == 0 {
        0
    } else {
        capacity(s.drop_last()) + (s.last().count - s.last().total_spawned)
    }
}

/// The least of two integers.
pub open spec fn min_int(a: int, b: int) -> int {
    if a <= b {
        a
    } else {
        b
    }
}

/// How many users a round of `per_user` users per controller starts at once:
/// each controller starts `per_user`, or what it still has to spawn if that
/// is less.
pub open spec fn first_round(s: Seq<SpawnControllerView>, per_user: int) -> int
    decreases s.len(),
{
    if s.len() == 0 {
        0
    } else {
        first_round(s.drop_last(), per_user) + min_int(per_user, s.last().count - s.last().total_spawned)
    }
}

/// No controller has ordered more users than it is to spawn.
pub open spec fn all_within(s: Seq<SpawnControllerView>) -> bool {
    forall|i: int| 0 <= i < s.len() ==> (#[trigger] s[i]).total_spawned <= s[i].count
}

/// Every controller still has users to spawn.
pub open spec fn all_pending(s: Seq<SpawnControllerView>) -> bool {
    forall|i: int| 0 <= i < s.len() ==> (#[trigger] s[i]).total_spawned < s[i].count
}

/// Every controller has ordered exactly the users it sent to its spawner.
pub open spec fn all_logged(s: Seq<SpawnControllerView>) -> bool {
    forall|i: int| 0 <= i < s.len() ==> (#[trigger] s[i]).total_spawned == seq_sum(s[i].sent)
}

/// The counts sent to each controller's spawner add up to the number of
/// users of its type.
pub open spec fn sent_in_full(s: Seq<SpawnControllerView>) -> bool {
    forall|i: int| 0 <= i < s.len() ==> seq_sum((#[trigger] s[i]).sent) == s[i].count
}

/// What a controller orders in the first pass of a round of `per_user`
/// users: `per_user`, or what it still has to spawn if that is less.
pub open spec fn first_pass_amount(c: SpawnControllerView, per_user: int) -> int {
    if c.total_spawned + per_user >= c.count {
        c.count - c.total_spawned
    } else {
        per_user
    }
}

/// A controller after the first pass of a round of `per_user` users: it has
/// sent `first_pass_amount` to its spawner and counts those users as ordered.
pub open spec fn after_first_pass(c: SpawnControllerView, per_user: int) -> SpawnControllerView {
    let amount = first_pass_amount(c, per_user);
    SpawnControllerView {
        total_spawned: (c.total_spawned + amount) as nat,
        sent: c.sent.push(amount as u64),
        ..c
    }
}

/// The controllers that still have users to spawn, in order.
pub open spec fn retain_pending(s: Seq<SpawnControllerView>) -> Seq<SpawnControllerView>
    decreases s.len(),
{
    if s.len() == 0 {
        Seq::empty()
    } else if s.last().total_spawned < s.last().count {
        retain_pending(s.drop_last()).push(s.last())
    } else {
        retain_pending(s.drop_last())
    }
}

/// The controllers that have ordered all their users, in order.
pub open spec fn retain_done(s: Seq<SpawnControllerView>) -> Seq<SpawnControllerView>
    decreases s.len(),
{
    if s.len() == 0 {
        Seq::empty()
    } else if s.last().total_spawned < s.last().count {
        retain_done(s.drop_last())
    } else {
        retain_done(s.drop_last()).push(s.last())
    }
}

/// The users of a first pass of `per_user` users that controllers could not
/// take because they needed fewer.
pub open spec fn leftover(s: Seq<SpawnControllerView>, per_user: int) -> int
    decreases s.len(),
{
    if s.len() == 0 {
        0
    } else {
        leftover(s.drop_last(), per_user) + if s.last().total_spawned + per_user >= s.last().count {
            s.last().total_spawned + per_user - s.last().count
        } else {
            0
        }
    }
}

/// The controllers after a round of `per_user` users: after the first pass
/// those that are done drop out, and the users they could not take are shared
/// out evenly (rounding down) among the others in a further round.
pub open spec fn spawn_round(s: Seq<SpawnControllerView>, per_user: int) -> Seq<SpawnControllerView>
    decreases s.len(),
{
    let t = retain_pending(s.map_values(|c: SpawnControllerView| after_first_pass(c, per_user)));
    let r = leftover(s, per_user);
    if r > 0 && 0 < t.len() < s.len() {
        spawn_round(t, r / (t.len() as int))
    } else {
        t
    }
}

/// The controllers that a round of `per_user` users finishes, as they are
/// when they drop out: first those done after the first pass, then those
/// done in the further round.
pub open spec fn spawn_finished(s: Seq<SpawnControllerView>, per_user: int) -> Seq<SpawnControllerView>
    decreases s.len(),
{
    let passed = s.map_values(|c: SpawnControllerView| after_first_pass(c, per_user));
    let t = retain_pending(passed);
    let r = leftover(s, per_user);
    if r > 0 && 0 < t.len() < s.len() {
        retain_done(passed) + spawn_finished(t, r / (t.len() as int))
    } else {
        retain_done(passed)
    }
}

/// Whether a round of `per_user` users can be computed without overflow: in
/// the first pass every controller's count of ordered users plus `per_user`,
/// and the users left over, fit a `u64`, and so does the further round.
pub open spec fn round_fits(s: Seq<SpawnControllerView>, per_user: int) -> bool
    decreases s.len(),
{
    let t = retain_pending(s.map_values(|c: SpawnControllerView| after_first_pass(c, per_user)));
    let r = leftover(s, per_user);
    &&& forall|i: int| 0 <= i < s.len() ==> (#[trigger] s[i]).total_spawned + per_user <= u64::MAX
    &&& r <= u64::MAX
    &&& (r > 0 && 0 < t.len() < s.len() ==> round_fits(t, r / (t.len() as int)))
}

/// The users each of `n` pending user types gets in a step: the users per
/// second shared out evenly, rounding down, but at least one while any user
/// is to be spawned per second.
pub open spec fn spec_share(users_per_sec: nat, n: nat) -> nat {
    if 0 < users_per_sec < n {
        1
    } else {
        users_per_sec / n
    }
}

/// How long to wait after a step, so that `users_per_sec` users start per
/// second: the step orders up to `spec_share * n` users, which at that rate
/// take `1000 * spec_share * n / users_per_sec` milliseconds (capped at
/// `u64::MAX`). Where no user is to be spawned per second, one second.
pub open spec fn spec_wait_time(users_per_sec: nat, n: nat) -> nat {
    if users_per_sec == 0 {
        1000
    } else {
        let w = (1000 * (spec_share(users_per_sec, n) * n)) / users_per_sec;
        if w > u64::MAX {
            u64::MAX as nat
        } else {
            w
        }
    }
}

/// The users each pending user type gets in a step.
fn step_share(users_per_sec: u64, n: u64) -> (share: u64)
    requires
        n > 0,
    ensures
        share == spec_share(users_per_sec as nat, n as nat),
        share * n <= if users_per_sec < n { n as int } else { users_per_sec as int },
        users_per_sec >= 1 ==> share >= 1,
{
    let share = if users_per_sec > 0 && users_per_sec < n {
        1
    } else {
        users_per_sec / n
    };
    proof {
        let u = users_per_sec as int;
        let m = n as int;
        if users_per_sec >= n {
            assert((u / m) * m <= u && u / m >= 1) by (nonlinear_arith)
                requires
                    m > 0,
                    u >= m,
            ;
        } else if users_per_sec == 0 {
            assert(u / m == 0) by (nonlinear_arith)
                requires
                    m > 0,
                    u == 0,
            ;
        }
    }
    share
}

/// Starts the users of every type at the configured rate.
pub struct SpawnCoordinator {
    users_per_sec: u64,
    user_spawn_controllers: Vec<UserSpawnController>,
    token: CancellationToken,
}

/// The mathematical content of a `SpawnCoordinator`.
pub struct SpawnCoordinatorView {
    pub users_per_sec: nat,
    pub controllers: Seq<SpawnControllerView>,
    /// The token that stops spawning.
    pub token: CancellationToken,
}

impl SpawnCoordinatorView {
    /// The users each pending user type gets in the next step.
    pub open spec fn share(self) -> nat {
        spec_share(self.users_per_sec, self.controllers.len())
    }

    /// The counters of the next step fit their integer type.
    pub open spec fn step_fits(self) -> bool {
        self.controllers.len() == 0 || round_fits(self.controllers, self.share() as int)
    }
}

impl View for SpawnCoordinator {
    type V = SpawnCoordinatorView;

    closed spec fn view(&self) -> SpawnCoordinatorView {
        SpawnCoordinatorView {
            users_per_sec: self.users_per_sec as nat,
            controllers: self.user_spawn_controllers@.map_values(|c: UserSpawnController| c@),
            token: self.token,
        }
    }
}

/// The `(total_spawned, count)` pairs of `v` are those of `s`.
spec fn mirrors(v: Seq<(u64, u64)>, s: Seq<SpawnControllerView>) -> bool {
    &&& v.len() == s.len()
    &&& forall|i: int| 0 <= i < v.len() ==> (#[trigger] v[i]).0 == s[i].total_spawned && v[i].1 == s[i].count
}

proof fn lemma_take_step(s: Seq<SpawnControllerView>, i: int, g: int)
    requires
        0 <= i < s.len(),
    ensures
        capacity(s.take(i + 1)) == capacity(s.take(i)) + (s[i].count - s[i].total_spawned),
        first_round(s.take(i + 1), g) == first_round(s.take(i), g) + min_int(
            g,
            s[i].count - s[i].total_spawned,
        ),
        leftover(s.take(i + 1), g) == leftover(s.take(i), g) + if s[i].total_spawned + g >= s[i].count {
            s[i].total_spawned + g - s[i].count
        } else {
            0
        },
        retain_pending(s.take(i + 1)) == if s[i].total_spawned < s[i].count {
            retain_pending(s.take(i)).push(s[i])
        } else {
            retain_pending(s.take(i))
        },
        retain_done(s.take(i + 1)) == if s[i].total_spawned < s[i].count {
            retain_done(s.take(i))
        } else {
            retain_done(s.take(i)).push(s[i])
        },
{
    assert(s.take(i + 1).drop_last() =~= s.take(i));
    assert(s.take(i + 1).last() == s[i]);
}

proof fn lemma_capacity_push(s: Seq<SpawnControllerView>, x: SpawnControllerView)
    ensures
        capacity(s.push(x)) == capacity(s) + (x.count - x.total_spawned),
{
    assert(s.push(x).drop_last() =~= s);
}

/// The users left over by a prefix are no more than those left over by the
/// whole, none being negative.
proof fn lemma_leftover_prefix(s: Seq<SpawnControllerView>, k: int, g: int)
    requires
        0 <= k <= s.len(),
    ensures
        0 <= leftover(s.take(k), g) <= leftover(s, g),
    decreases s.len(),
{
    if k < s.len() {
        lemma_leftover_prefix(s.drop_last(), k, g);
        assert(s.drop_last().take(k) =~= s.take(k));
    } else {
        assert(s.take(k) =~= s);
        if s.len() > 0 {
            lemma_leftover_prefix(s.drop_last(), k - 1, g);
            assert(s.drop_last().take(k - 1) =~= s.drop_last());
        }
    }
}

impl SpawnCoordinator {
    pub fn new(
        users_per_sec: u64,
        user_spawn_controllers: Vec<UserSpawnController>,
        token: CancellationToken,
    ) -> (res: Self)
        ensures
            res@.users_per_sec == users_per_sec,
            res@.controllers == user_spawn_controllers@.map_values(|c: UserSpawnController| c@),
            res@.token == token,
    {
        SpawnCoordinator { users_per_sec, user_spawn_controllers, token }
    }

    /// The token that stops spawning.
    pub fn get_token(&self) -> (res: &CancellationToken)
        ensures
            *res == self@.token,
    {
        &self.token
    }

    /// The controllers that still have users to spawn.
    pub fn get_user_spawn_controllers(&self) -> (res: &Vec<UserSpawnController>)
        ensures
            res@.map_values(|c: UserSpawnController| c@) == self@.controllers,
    {
        &self.user_spawn_controllers
    }

    /// Whether the next step can be computed without overflow. The step's
    /// rounds are worked through on the `(total_spawned, count)` pairs alone,
    /// without ordering anything.
    pub fn counters_fit(&self) -> (res: bool)
        ensures
            res == self@.step_fits(),
    {
        let n = self.user_spawn_controllers.len();
        if n == 0 {
            return true;
        }
        let mut g: u64 = step_share(self.users_per_sec, n as u64);
        let mut cur: Vec<(u64, u64)> = Vec::new();
        let mut i: usize = 0;
        while i < n
            invariant
                n == self.user_spawn_controllers@.len(),
                n == self@.controllers.len(),
                i <= n,
                cur@.len() == i,
                forall|j: int| 0 <= j < i ==> (#[trigger] cur@[j]).0 == self@.controllers[j].total_spawned
                    && cur@[j].1 == self@.controllers[j].count,
            decreases n - i,
        {
            let c = &self.user_spawn_controllers[i];
            assert(self@.controllers[i as int] == c@);
            cur.push((c.progress.total_spawned, c.count));
            i = i + 1;
        }
        let ghost mut gs = self@.controllers;
        loop
            invariant
                gs.len() > 0,
                mirrors(cur@, gs),
                round_fits(self@.controllers, self@.share() as int) == round_fits(gs, g as int),
                self@.controllers.len() > 0,
            decreases gs.len(),
        {
            let m = cur.len();
            let ghost passed = gs.map_values(|c: SpawnControllerView| after_first_pass(c, g as int));
            let mut next: Vec<(u64, u64)> = Vec::new();
            let mut r: u64 = 0;
            let mut k: usize = 0;
            proof {
                assert(gs.take(0) =~= Seq::<SpawnControllerView>::empty());
                assert(passed.take(0) =~= Seq::<SpawnControllerView>::empty());
            }
            while k < m
                invariant
                    m == cur@.len(),
                    mirrors(cur@, gs),
                    gs.len() > 0,
                    round_fits(self@.controllers, self@.share() as int) == round_fits(gs, g as int),
                    k <= m,
                    passed == gs.map_values(|c: SpawnControllerView| after_first_pass(c, g as int)),
                    forall|j: int| 0 <= j < k ==> (#[trigger] gs[j]).total_spawned + g <= u64::MAX,
                    r == leftover(gs.take(k as int), g as int),
                    mirrors(next@, retain_pending(passed.take(k as int))),
                decreases m - k,
            {
                let (t, c) = cur[k];
                proof {
                    lemma_take_step(gs, k as int, g as int);
                    lemma_take_step(passed, k as int, g as int);
                    assert(passed[k as int] == after_first_pass(gs[k as int], g as int));
                }
                if t > u64::MAX - g {
                    assert(!((#[trigger] gs[k as int]).total_spawned + g <= u64::MAX));
                    return false;
                }
                if t + g >= c {
                    let extra = t + g - c;
                    if r > u64::MAX - extra {
                        proof {
                            lemma_leftover_prefix(gs, k + 1, g as int);
                        }
                        return false;
                    }
                    r = r + extra;
                } else {
                    let ghost before = next@;
                    next.push((t + g, c));
                    proof {
                        let rp = retain_pending(passed.take(k + 1));
                        assert forall|j: int| 0 <= j < next@.len() implies (#[trigger] next@[j]).0
                            == rp[j].total_spawned && next@[j].1 == rp[j].count by {
                            if j < before.len() {
                                assert(next@[j] == before[j]);
                            }
                        }
                    }
                }
                k = k + 1;
            }
            proof {
                assert(gs.take(m as int) =~= gs);
                assert(passed.take(m as int) =~= passed);
            }
            let nl = next.len();
            if r > 0 && 0 < nl && nl < m {
                g = r / (nl as u64);
                cur = next;
                proof {
                    gs = retain_pending(passed);
                }
            } else {
                return true;
            }
        }
    }

    /// One round of spawning: every controller orders `per_user` users, or
    /// what it still has to spawn if that is less, and those that have then
    /// ordered all their users are dropped; the users that dropped
    /// controllers could not take are shared out evenly (rounding down) among
    /// the remaining controllers in a further round. Every controller's total
    /// stays the sum of the counts sent to it, so it grows by exactly what
    /// the round sends it. Returns how many users were ordered.
    pub fn inner_spawn(&mut self, per_user: u64) -> (sent: Ghost<int>)
        requires
            round_fits(old(self)@.controllers, per_user as int),
        ensures
            final(self)@.users_per_sec == old(self)@.users_per_sec,
            final(self)@.token == old(self)@.token,
            all_within(old(self)@.controllers),
            all_logged(old(self)@.controllers),
            final(self)@.controllers == spawn_round(old(self)@.controllers, per_user as int),
            all_within(final(self)@.controllers),
            all_pending(final(self)@.controllers),
            all_logged(final(self)@.controllers),
            sent_in_full(spawn_finished(old(self)@.controllers, per_user as int)),
            capacity(old(self)@.controllers) == capacity(final(self)@.controllers) + sent@,
            sent@ <= per_user * old(self)@.controllers.len(),
            sent@ >= first_round(old(self)@.controllers, per_user as int),
            first_round(old(self)@.controllers, per_user as int) >= 0,
        decreases old(self)@.controllers.len(),
    {
        let ghost orig = self@.controllers;
        let ghost g = per_user as int;
        let ghost passed = orig.map_values(|c: SpawnControllerView| after_first_pass(c, g));
        let n = self.user_spawn_controllers.len();
        let mut pending: Vec<UserSpawnController> = Vec::new();
        std::mem::swap(&mut pending, &mut self.user_spawn_controllers);
        assert(pending@.map_values(|c: UserSpawnController| c@) == orig);
        let mut kept: Vec<UserSpawnController> = Vec::new();
        let ghost mut done: Seq<SpawnControllerView> = Seq::empty();
        let mut remaining_users_to_spawn: u64 = 0;
        let ghost mut sent_first: int = 0;
        let mut i: usize = 0;
        proof {
            if n > 0 {
                assert(g <= g * n) by (nonlinear_arith)
                    requires
                        n > 0,
                        g >= 0,
                ;
            }
            assert(orig.take(0) =~= Seq::<SpawnControllerView>::empty());
            assert(passed.take(0) =~= Seq::<SpawnControllerView>::empty());
            assert(kept@.map_values(|c: UserSpawnController| c@) =~= Seq::<SpawnControllerView>::empty());
        }
        while i < n
            invariant
                n == orig.len(),
                i <= n,
                g == per_user,
                pending@.len() == n - i,
                forall|j: int| 0 <= j < n - i ==> (#[trigger] pending@[j])@ == orig[i + j],
                round_fits(orig, g),
                n > 0 ==> g <= g * n,
                forall|j: int| 0 <= j < i ==> (#[trigger] orig[j]).total_spawned <= orig[j].count
                    && orig[j].total_spawned == seq_sum(orig[j].sent),
                kept@.len() <= i,
                all_within(kept@.map_values(|c: UserSpawnController| c@)),
                all_pending(kept@.map_values(|c: UserSpawnController| c@)),
                all_logged(kept@.map_values(|c: UserSpawnController| c@)),
                sent_in_full(done),
                capacity(orig.take(i as int)) == capacity(kept@.map_values(|c: UserSpawnController| c@))
                    + sent_first,
                sent_first + remaining_users_to_spawn == g * i,
                sent_first == first_round(orig.take(i as int), g),
                remaining_users_to_spawn <= g * (i - kept@.len()),
                self@.users_per_sec == old(self)@.users_per_sec,
                self@.token == old(self)@.token,
                passed == orig.map_values(|c: SpawnControllerView| after_first_pass(c, g)),
                kept@.map_values(|c: UserSpawnController| c@) == retain_pending(passed.take(i as int)),
                done == retain_done(passed.take(i as int)),
                remaining_users_to_spawn == leftover(orig.take(i as int), g),
            decreases n - i,
        {
            let ghost kv = kept@.map_values(|c: UserSpawnController| c@);
            proof {
                assert(g * (i + 1) == g * i + g) by (nonlinear_arith);
                assert(g * (i + 1) <= g * n) by (nonlinear_arith)
                    requires
                        i + 1 <= n,
                        g >= 0,
                ;
                assert(g * ((i + 1) - kv.len()) == g * (i - kv.len()) + g) by (nonlinear_arith);
                assert(g * ((i + 1) - (kv.len() + 1)) == g * (i - kv.len())) by (nonlinear_arith);
                lemma_take_step(orig, i as int, g);
                lemma_take_step(passed, i as int, g);
                lemma_leftover_prefix(orig, i + 1, g);
                assert(pending@[0]@ == orig[i as int]);
                assert(passed[i as int] == after_first_pass(orig[i as int], g));
            }
            let ghost pending_before = pending@;
            let mut user_spawn_controller = pending.remove(0);
            proof {
                use_type_invariant(&user_spawn_controller);
                assert forall|j: int| 0 <= j < n - (i + 1) implies (#[trigger] pending@[j])@ == orig[(i + 1) + j] by {
                    assert(pending@[j] == pending_before[j + 1]);
                }
                assert((#[trigger] orig[i as int]).total_spawned + g <= u64::MAX);
            }
            let total = user_spawn_controller.progress.total_spawned;
            let count = user_spawn_controller.count;
            let mut users_to_spawn_count_per_user = per_user;
            let mut retain = true;
            if total + per_user >= count {
                users_to_spawn_count_per_user = count - total;
                remaining_users_to_spawn = remaining_users_to_spawn + (total + per_user - count);
                retain = false;
            }
            user_spawn_controller.send_spawn_count(users_to_spawn_count_per_user);
            proof {
                use_type_invariant(&user_spawn_controller);
                assert(user_spawn_controller@ == passed[i as int]);
                sent_first = sent_first + users_to_spawn_count_per_user;
            }
            if retain {
                let ghost c = user_spawn_controller@;
                kept.push(user_spawn_controller);
                proof {
                    assert(kept@.map_values(|c: UserSpawnController| c@) =~= kv.push(c));
                    lemma_capacity_push(kv, c);
                }
            } else {
                proof {
                    let c = user_spawn_controller@;
                    let d2 = done.push(c);
                    assert forall|j: int| 0 <= j < d2.len() implies seq_sum((#[trigger] d2[j]).sent)
                        == d2[j].count by {
                        if j < done.len() {
                            assert(d2[j] == done[j]);
                        }
                    }
                    done = d2;
                }
            }
            i = i + 1;
        }
        self.user_spawn_controllers = kept;
        let ghost kv = self@.controllers;
        assert(kv == kept@.map_values(|c: UserSpawnController| c@));
        proof {
            assert(orig.take(n as int) =~= orig);
            assert(passed.take(n as int) =~= passed);
            lemma_nonnegative(orig, g);
        }
        let kept_len = self.user_spawn_controllers.len();
        if remaining_users_to_spawn > 0 && kept_len > 0 {
            let global_users_to_spawn_count_per_user = remaining_users_to_spawn / (kept_len as u64);
            let ghost g2 = global_users_to_spawn_count_per_user as int;
            proof {
                let r = remaining_users_to_spawn as int;
                let m = kept_len as int;
                assert(g2 * m <= r) by (nonlinear_arith)
                    requires
                        g2 == r / m,
                        m > 0,
                        r >= 0,
                ;
                assert(m < n) by (nonlinear_arith)
                    requires
                        r > 0,
                        r <= g * (n - m),
                        g >= 0,
                        m <= n,
                ;
            }
            let sent2 = self.inner_spawn(global_users_to_spawn_count_per_user);
            proof {
                let fin = done + spawn_finished(kv, g2);
                assert(spawn_finished(orig, g) == fin);
                assert forall|j: int| 0 <= j < fin.len() implies seq_sum((#[trigger] fin[j]).sent)
                    == fin[j].count by {
                    if j < done.len() {
                        assert(fin[j] == done[j]);
                    } else {
                        assert(fin[j] == spawn_finished(kv, g2)[j - done.len()]);
                    }
                }
            }
            Ghost(sent_first + sent2@)
        } else {
            Ghost(sent_first)
        }
    }

    /// One step of the spawn loop. Where controllers remain, each gets its
    /// share of the users per second (rounded down, but at least one while
    /// any user is to be spawned per second), one round of spawning is made,
    /// and the time to wait before the next step is returned, which keeps the
    /// rate at the users per second; where none remain, spawning is over and
    /// `None` comes back.
    pub fn spawn_step(&mut self) -> (wait_time_in_millis: Option<u64>)
        requires
            old(self)@.step_fits(),
        ensures
            final(self)@.users_per_sec == old(self)@.users_per_sec,
            final(self)@.token == old(self)@.token,
            old(self)@.controllers.len() == 0 ==> wait_time_in_millis is None && final(self)@ == old(self)@,
            old(self)@.controllers.len() > 0 ==> {
                let n = old(self)@.controllers.len();
                let ups = old(self)@.users_per_sec;
                let g = old(self)@.share() as int;
                &&& wait_time_in_millis == Some(spec_wait_time(ups, n) as u64)
                &&& all_within(old(self)@.controllers)
                &&& all_logged(old(self)@.controllers)
                &&& final(self)@.controllers == spawn_round(old(self)@.controllers, g)
                &&& all_within(final(self)@.controllers)
                &&& all_pending(final(self)@.controllers)
                &&& all_logged(final(self)@.controllers)
                &&& sent_in_full(spawn_finished(old(self)@.controllers, g))
                &&& capacity(final(self)@.controllers) <= capacity(old(self)@.controllers)
                &&& capacity(old(self)@.controllers) - capacity(final(self)@.controllers) <= g * n
                &&& capacity(old(self)@.controllers) - capacity(final(self)@.controllers)
                    >= first_round(old(self)@.controllers, g)
                &&& (ups >= 1 && capacity(old(self)@.controllers) > 0 ==> capacity(
                    final(self)@.controllers,
                ) < capacity(old(self)@.controllers))
            },
    {
        let n = self.user_spawn_controllers.len();
        if n == 0 {
            return None;
        }
        let ups = self.users_per_sec;
        let users_to_spawn = step_share(ups, n as u64);
        let mut wait_time_in_millis: u64 = 1000;
        if ups > 0 {
            let step_users: u128 = (users_to_spawn as u128) * (n as u128);
            let w: u128 = (1000u128 * step_users) / (ups as u128);
            wait_time_in_millis = if w > u64::MAX as u128 {
                u64::MAX
            } else {
                w as u64
            };
        }
        let ghost before = self@.controllers;
        let _sent = self.inner_spawn(users_to_spawn);
        proof {
            if ups >= 1 && capacity(before) > 0 {
                lemma_round_makes_progress(before, users_to_spawn as int);
            }
        }
        Some(wait_time_in_millis)
    }
}

/// Without a controller that has ordered more than it is to spawn, no round
/// and no capacity is negative.
proof fn lemma_nonnegative(s: Seq<SpawnControllerView>, g: int)
    requires
        all_within(s),
        g >= 0,
    ensures
        first_round(s, g) >= 0,
        capacity(s) >= 0,
    decreases s.len(),
{
    if s.len() > 0 {
        assert(s[s.len() - 1] == s.last());
        assert(all_within(s.drop_last())) by {
            assert forall|i: int| 0 <= i < s.drop_last().len() implies (#[trigger] s.drop_last()[i]).total_spawned
                <= s.drop_last()[i].count by {
                assert(s.drop_last()[i] == s[i]);
            }
        }
        lemma_nonnegative(s.drop_last(), g);
    }
}

/// Where at least one user per controller is to be spawned and some user is
/// still to be spawned, a round spawns at least one. Each step's share is at
/// least one whenever at least one user is to be spawned per second, so
/// every step then makes progress and spawning ends.
pub proof fn lemma_round_makes_progress(s: Seq<SpawnControllerView>, per_user: int)
    requires
        all_within(s),
        per_user >= 1,
        capacity(s) > 0,
    ensures
        first_round(s, per_user) >= 1,
    decreases s.len(),
{
    assert(s[s.len() - 1] == s.last());
    assert(all_within(s.drop_last())) by {
        assert forall|i: int| 0 <= i < s.drop_last().len() implies (#[trigger] s.drop_last()[i]).total_spawned
            <= s.drop_last()[i].count by {
            assert(s.drop_last()[i] == s[i]);
        }
    }
    lemma_nonnegative(s.drop_last(), per_user);
    if s.last().count - s.last().total_spawned == 0 {
        lemma_round_makes_progress(s.drop_last(), per_user);
    }
}

/// Controllers that all still have users to spawn have a user left to spawn,
/// unless there are none: so once no user is left, the next step finds no
/// controller and spawning ends.
pub proof fn lemma_no_capacity_means_done(s: Seq<SpawnControllerView>)
    requires
        all_pending(s),
        capacity(s) <= 0,
    ensures
        s.len() == 0,
{
    if s.len() > 0 {
        assert(s[s.len() - 1] == s.last());
        assert(all_within(s.drop_last())) by {
            assert forall|i: int| 0 <= i < s.drop_last().len() implies (#[trigger] s.drop_last()[i]).total_spawned
                <= s.drop_last()[i].count by {
                assert(s.drop_last()[i] == s[i]);
            }
        }
        lemma_nonnegative(s.drop_last(), 0);
    }
}

/// Every controller is either pending or done.
proof fn lemma_retain_split(s: Seq<SpawnControllerView>)
    ensures
        retain_pending(s).len() + retain_done(s).len() == s.len(),
    decreases s.len(),
{
    if s.len() > 0 {
        lemma_retain_split(s.drop_last());
    }
}

/// A round loses no controller: each one either stays or finishes.
pub proof fn lemma_round_keeps_every_controller(s: Seq<SpawnControllerView>, per_user: int)
    ensures
        spawn_round(s, per_user).len() + spawn_finished(s, per_user).len() == s.len(),
    decreases s.len(),
{
    let passed = s.map_values(|c: SpawnControllerView| after_first_pass(c, per_user));
    lemma_retain_split(passed);
    let t = retain_pending(passed);
    let r = leftover(s, per_user);
    if r > 0 && 0 < t.len() < s.len() {
        lemma_round_keeps_every_controller(t, r / (t.len() as int));
    }
}

/// After the first pass, the controllers still pending need exactly what the
/// pass left unordered, none has ordered more than it is to spawn, and where
/// users were left over some controller dropped out.
proof fn lemma_first_pass(s: Seq<SpawnControllerView>, g: int)
    requires
        all_within(s),
        g >= 0,
    ensures
        capacity(retain_pending(s.map_values(|c: SpawnControllerView| after_first_pass(c, g)))) == capacity(s)
            - first_round(s, g),
        all_within(retain_pending(s.map_values(|c: SpawnControllerView| after_first_pass(c, g)))),
        retain_pending(s.map_values(|c: SpawnControllerView| after_first_pass(c, g))).len() <= s.len(),
        leftover(s, g) > 0 ==> retain_pending(
            s.map_values(|c: SpawnControllerView| after_first_pass(c, g)),
        ).len() < s.len(),
        leftover(s, g) >= 0,
        first_round(s, g) + leftover(s, g) == g * s.len(),
    decreases s.len(),
{
    if s.len() > 0 {
        let rest = s.drop_last();
        assert(g * s.len() == g * rest.len() + g) by (nonlinear_arith)
            requires
                s.len() == rest.len() + 1,
        ;
        assert(s[s.len() - 1] == s.last());
        assert(all_within(rest)) by {
            assert forall|i: int| 0 <= i < rest.len() implies (#[trigger] rest[i]).total_spawned <= rest[i].count by {
                assert(rest[i] == s[i]);
            }
        }
        lemma_first_pass(rest, g);
        let passed = s.map_values(|c: SpawnControllerView| after_first_pass(c, g));
        assert(passed.drop_last() =~= rest.map_values(|c: SpawnControllerView| after_first_pass(c, g)));
        assert(passed.last() == after_first_pass(s.last(), g));
        let t0 = retain_pending(rest.map_values(|c: SpawnControllerView| after_first_pass(c, g)));
        let x = after_first_pass(s.last(), g);
        if x.total_spawned < x.count {
            lemma_capacity_push(t0, x);
            let t = t0.push(x);
            assert forall|i: int| 0 <= i < t.len() implies (#[trigger] t[i]).total_spawned <= t[i].count by {
                if i < t0.len() {
                    assert(t[i] == t0[i]);
                }
            }
        }
    }
}

/// A round orders at least its first pass, and leaves no controller having
/// ordered more than it is to spawn.
proof fn lemma_round_orders_first_pass(s: Seq<SpawnControllerView>, g: int)
    requires
        all_within(s),
        g >= 0,
    ensures
        capacity(s) - capacity(spawn_round(s, g)) >= first_round(s, g),
        all_within(spawn_round(s, g)),
    decreases s.len(),
{
    lemma_first_pass(s, g);
    let t = retain_pending(s.map_values(|c: SpawnControllerView| after_first_pass(c, g)));
    let r = leftover(s, g);
    if r > 0 && 0 < t.len() < s.len() {
        lemma_round_orders_first_pass(t, r / (t.len() as int));
        lemma_nonnegative(t, r / (t.len() as int));
    }
}

/// A round of `per_user` users per controller orders no more than
/// `per_user` users for each controller it started with: what one controller
/// could not take is only shared out among the others.
pub proof fn lemma_round_orders_at_most_share(s: Seq<SpawnControllerView>, per_user: int)
    requires
        all_within(s),
        per_user >= 0,
    ensures
        capacity(s) - capacity(spawn_round(s, per_user)) <= per_user * s.len(),
    decreases s.len(),
{
    lemma_first_pass(s, per_user);
    let t = retain_pending(s.map_values(|c: SpawnControllerView| after_first_pass(c, per_user)));
    let r = leftover(s, per_user);
    if r > 0 && 0 < t.len() < s.len() {
        let g2 = r / (t.len() as int);
        lemma_round_orders_at_most_share(t, g2);
        let m = t.len() as int;
        assert(g2 * m <= r) by (nonlinear_arith)
            requires
                g2 == r / m,
                m > 0,
                r >= 0,
        ;
    }
}

/// Users left over by the first pass of a round are shared out again within
/// the same round: where some are left over and some controller is still
/// pending, each pending controller is ordered a further share of
/// `leftover / pending` users (or what it still needs, if less), on top of
/// the first pass.
pub proof fn lemma_round_reshares_leftover(s: Seq<SpawnControllerView>, per_user: int)
    requires
        all_within(s),
        per_user >= 0,
        leftover(s, per_user) > 0,
        retain_pending(s.map_values(|c: SpawnControllerView| after_first_pass(c, per_user))).len() > 0,
    ensures
        ({
            let pending = retain_pending(s.map_values(|c: SpawnControllerView| after_first_pass(c, per_user)));
            capacity(s) - capacity(spawn_round(s, per_user)) >= first_round(s, per_user) + first_round(
                pending,
                leftover(s, per_user) / (pending.len() as int),
            )
        }),
{
    lemma_first_pass(s, per_user);
    let t = retain_pending(s.map_values(|c: SpawnControllerView| after_first_pass(c, per_user)));
    let r = leftover(s, per_user);
    lemma_round_orders_first_pass(t, r / (t.len() as int));
}

/// How many users of each type to spawn: `user_count` shared out in
/// proportion to the weights, each share rounded down.
pub open spec fn spec_weighted_count(user_count: nat, weight: nat, total_weight: nat) -> nat {
    (user_count * weight) / total_weight
}

/// The sum of a sequence of weights or counts.
pub open spec fn seq_sum(s: Seq<u64>) -> nat
    decreases s.len(),
{
    if s.len() == 0 {
        0
    } else {
        seq_sum(s.drop_last()) + s.last() as nat
    }
}

/// The sum of the shares of `user_count` that the weights get.
pub open spec fn sum_shares(weights: Seq<u64>, user_count: nat, total_weight: nat) -> nat
    decreases weights.len(),
{
    if weights.len() == 0 {
        0
    } else {
        sum_shares(weights.drop_last(), user_count, total_weight) + spec_weighted_count(
            user_count,
            weights.last() as nat,
            total_weight,
        )
    }
}

/// The shares, each rounded down, add up to no more than the share of the
/// summed weights.
proof fn lemma_sum_shares(weights: Seq<u64>, u: nat, w: nat)
    requires
        w > 0,
    ensures
        sum_shares(weights, u, w) <= (u * seq_sum(weights)) / w,
    decreases weights.len(),
{
    if weights.len() > 0 {
        let rest = weights.drop_last();
        lemma_sum_shares(rest, u, w);
        let a = u * seq_sum(rest);
        let b = u * (weights.last() as nat);
        assert(a / w + b / w <= (a + b) / w) by (nonlinear_arith)
            requires
                w > 0,
                a >= 0,
                b >= 0,
        ;
        assert(u * seq_sum(weights) == a + b) by (nonlinear_arith)
            requires
                seq_sum(weights) == seq_sum(rest) + weights.last() as nat,
                a == u * seq_sum(rest),
                b == u * (weights.last() as nat),
        ;
    }
}

/// Whether `user_count` users can be shared out by the weights: the weights
/// sum to more than zero and to no more than a `u64` holds, and no share's
/// product overflows.
pub open spec fn weights_fit(user_count: nat, weights: Seq<u64>) -> bool {
    &&& 0 < seq_sum(weights) <= u64::MAX
    &&& forall|i: int| 0 <= i < weights.len() ==> user_count * (#[trigger] weights[i]) <= u64::MAX
}

/// Shares `user_count` users among the user types as `user_counts_by_weight`
/// does, where the weights allow it; `None` where they do not.
pub fn checked_user_counts_by_weight(user_count: u64, weights: &Vec<u64>) -> (res: Option<Vec<u64>>)
    ensures
        res is Some <==> weights_fit(user_count as nat, weights@),
        res matches Some(counts) ==> {
            &&& counts@.len() == weights@.len()
            &&& forall|i: int| 0 <= i < weights@.len() ==> (#[trigger] counts@[i]) == spec_weighted_count(
                user_count as nat,
                weights@[i] as nat,
                seq_sum(weights@),
            )
            &&& seq_sum(counts@) <= user_count
        },
{
    let n = weights.len();
    let mut sum: u64 = 0;
    let mut i: usize = 0;
    while i < n
        invariant
            n == weights@.len(),
            i <= n,
            sum == seq_sum(weights@.take(i as int)),
            forall|j: int| 0 <= j < i ==> user_count * (#[trigger] weights@[j]) <= u64::MAX,
        decreases n - i,
    {
        let w = weights[i];
        proof {
            assert(weights@.take(i + 1).drop_last() =~= weights@.take(i as int));
        }
        if w > u64::MAX - sum {
            proof {
                lemma_prefix_sum_le(weights@, i as int + 1);
            }
            return None;
        }
        if w > 0 && user_count > u64::MAX / w {
            proof {
                let u = user_count as int;
                let m = w as int;
                assert(u * m > u64::MAX) by (nonlinear_arith)
                    requires
                        m > 0,
                        u > (u64::MAX as int) / m,
                ;
            }
            return None;
        }
        proof {
            let u = user_count as int;
            let m = w as int;
            if m > 0 {
                assert(u * m <= u64::MAX) by (nonlinear_arith)
                    requires
                        m > 0,
                        u <= (u64::MAX as int) / m,
                ;
            } else {
                assert(u * m == 0) by (nonlinear_arith)
                    requires
                        m == 0,
                ;
            }
        }
        sum = sum + w;
        i = i + 1;
    }
    assert(weights@.take(n as int) =~= weights@);
    if sum == 0 {
        return None;
    }
    Some(user_counts_by_weight(user_count, weights))
}

/// Shares `user_count` users among the user types in proportion to their
/// weights, rounding each share down; the shares never add up to more than
/// `user_count`, so some users may not be spawned.
pub fn user_counts_by_weight(user_count: u64, weights: &Vec<u64>) -> (counts: Vec<u64>)
    requires
        weights_fit(user_count as nat, weights@),
    ensures
        counts@.len() == weights@.len(),
        forall|i: int| 0 <= i < weights@.len() ==> (#[trigger] counts@[i]) == spec_weighted_count(
            user_count as nat,
            weights@[i] as nat,
            seq_sum(weights@),
        ),
        sum_shares(weights@, user_count as nat, seq_sum(weights@)) == seq_sum(counts@),
        seq_sum(counts@) <= user_count,
{
    let n = weights.len();
    let mut full_weight: u64 = 0;
    let mut i: usize = 0;
    while i < n
        invariant
            n == weights@.len(),
            i <= n,
            full_weight == seq_sum(weights@.take(i as int)),
            seq_sum(weights@) <= u64::MAX,
        decreases n - i,
    {
        proof {
            assert(weights@.take(i + 1).drop_last() =~= weights@.take(i as int));
            lemma_prefix_sum_le(weights@, i as int + 1);
        }
        full_weight = full_weight + weights[i];
        i = i + 1;
    }
    assert(weights@.take(n as int) =~= weights@);
    let mut counts: Vec<u64> = Vec::new();
    let mut j: usize = 0;
    while j < n
        invariant
            n == weights@.len(),
            j <= n,
            full_weight == seq_sum(weights@),
            full_weight > 0,
            forall|i: int| 0 <= i < weights@.len() ==> user_count * (#[trigger] weights@[i]) <= u64::MAX,
            counts@.len() == j,
            forall|i: int| 0 <= i < j ==> (#[trigger] counts@[i]) == spec_weighted_count(
                user_count as nat,
                weights@[i] as nat,
                seq_sum(weights@),
            ),
            seq_sum(counts@) == sum_shares(weights@.take(j as int), user_count as nat, seq_sum(weights@)),
        decreases n - j,
    {
        let w = weights[j];
        assert(user_count * w <= u64::MAX);
        let ghost before = counts@;
        counts.push(user_count * w / full_weight);
        proof {
            assert(counts@.drop_last() =~= before);
            assert(weights@.take(j + 1).drop_last() =~= weights@.take(j as int));
            assert(weights@.take(j + 1).last() == w);
        }
        j = j + 1;
    }
    proof {
        assert(weights@.take(n as int) =~= weights@);
        let u = user_count as nat;
        let wsum = seq_sum(weights@);
        lemma_sum_shares(weights@, u, wsum);
        assert((u * wsum) / wsum == u) by (nonlinear_arith)
            requires
                wsum > 0,
        ;
    }
    counts
}

/// The first user id of each user type: the users of each type get
/// consecutive ids, starting after those of the types before it.
pub fn start_indices(counts: &Vec<u64>) -> (starts: Vec<u64>)
    requires
        seq_sum(counts@) <= u64::MAX,
    ensures
        starts@.len() == counts@.len(),
        forall|i: int| 0 <= i < counts@.len() ==> (#[trigger] starts@[i]) == seq_sum(counts@.take(i)),
{
    let n = counts.len();
    let mut starts: Vec<u64> = Vec::new();
    let mut start_index: u64 = 0;
    let mut i: usize = 0;
    while i < n
        invariant
            n == counts@.len(),
            i <= n,
            starts@.len() == i,
            start_index == seq_sum(counts@.take(i as int)),
            seq_sum(counts@) <= u64::MAX,
            forall|j: int| 0 <= j < i ==> (#[trigger] starts@[j]) == seq_sum(counts@.take(j)),
        decreases n - i,
    {
        starts.push(start_index);
        proof {
            assert(counts@.take(i + 1).drop_last() =~= counts@.take(i as int));
            lemma_prefix_sum_le(counts@, i as int + 1);
        }
        start_index = start_index + counts[i];
        i = i + 1;
    }
    starts
}

/// The id ranges that `start_indices` gives the user types follow each other
/// without gap or overlap: the users of type `i + 1` start where those of
/// type `i` end.
pub proof fn lemma_id_ranges_are_consecutive(counts: Seq<u64>, i: int)
    requires
        0 <= i < counts.len() - 1,
    ensures
        seq_sum(counts.take(i + 1)) == seq_sum(counts.take(i)) + counts[i],
{
    assert(counts.take(i + 1).drop_last() =~= counts.take(i));
}

/// A prefix of a sequence of weights sums to no more than the whole.
pub(crate) proof fn lemma_prefix_sum_le(s: Seq<u64>, k: int)
    requires
        0 <= k <= s.len(),
    ensures
        seq_sum(s.take(k)) <= seq_sum(s),
    decreases s.len(),
{
    if k < s.len() {
        lemma_prefix_sum_le(s.drop_last(), k);
        assert(s.drop_last().take(k) =~= s.take(k));
    } else {
        assert(s.take(k) =~= s);
    }
}

} // verus!
