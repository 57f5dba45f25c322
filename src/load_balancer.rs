use vstd::prelude::*;

verus! {

/// Address family of a SOCKS5 destination, used to prefer egresses of the same family.
#[derive(Debug, Clone, Copy, PartialEq, Eq, Structural)]
pub enum TargetAddressType {
    IPv4,
    IPv6,
    Domain,
}

/// One egress path: a local bind address (or an upstream relay in tunnel mode),
/// an optional interface name, its weight and its address family.
#[derive(Debug, Clone)]
pub struct LoadBalancer {
    pub address: String,
    pub iface: Option<String>,
    pub contention_ratio: u32,
    pub is_ipv6: bool,
}

impl LoadBalancer {
    /// An egress is usable by a pool when its weight is at least one.
    pub open spec fn wf(&self) -> bool {
        self.contention_ratio >= 1
    }

    pub fn new(address: String, iface: Option<String>, contention_ratio: u32, is_ipv6: bool) -> (r:
        Self)
        ensures
            r.address == address,
            r.iface == iface,
            r.contention_ratio == contention_ratio,
            r.is_ipv6 == is_ipv6,
    {
        Self { address, iface, contention_ratio, is_ipv6 }
    }

    fn duplicate(&self) -> (r: Self)
        ensures
            r == *self,
    {
        let iface = match &self.iface {
            Some(name) => Some(name.clone()),
            None => None,
        };
        LoadBalancer {
            address: self.address.clone(),
            iface,
            contention_ratio: self.contention_ratio,
            is_ipv6: self.is_ipv6,
        }
    }
}

/// Whether index `i` is marked as already tried in the optional skip vector.
/// Indices beyond the vector's end count as not skipped.
pub open spec fn skipped(skip: Option<Seq<bool>>, i: int) -> bool {
    match skip {
        Some(s) => 0 <= i < s.len() && s[i],
        None => false,
    }
}

/// The contents of an optional skip slice.
pub open spec fn skip_view(skip: Option<&[bool]>) -> Option<Seq<bool>> {
    match skip {
        Some(s) => Some(s@),
        None => None,
    }
}

/// Whether an egress of the given family suits the target family hint.
pub open spec fn family_matches(hint: Option<TargetAddressType>, is_ipv6: bool) -> bool {
    match hint {
        Some(TargetAddressType::IPv4) => !is_ipv6,
        Some(TargetAddressType::IPv6) => is_ipv6,
        _ => true,
    }
}

/// Abstract state of a pool: its egresses, the round-robin cursor and the number
/// of selections already made at the cursor.
pub struct PoolState {
    pub egresses: Seq<LoadBalancer>,
    pub cursor: int,
    pub hits: int,
}

impl PoolState {
    pub open spec fn len(self) -> int {
        self.egresses.len() as int
    }

    pub open spec fn weight(self, i: int) -> int {
        self.egresses[i].contention_ratio as int
    }

    pub open spec fn wf(self) -> bool {
        &&& self.len() >= 1
        &&& forall|i: int| 0 <= i < self.len() ==> #[trigger] self.egresses[i].wf()
        &&& 0 <= self.cursor < self.len()
        &&& 0 <= self.hits < self.weight(self.cursor)
    }

    /// The index that follows `i` in cyclic order.
    pub open spec fn next(self, i: int) -> int {
        if i + 1 < self.len() {
            i + 1
        } else {
            0
        }
    }

    /// The index `k` steps after the cursor, for `0 <= k <= len`.
    pub open spec fn position(self, k: int) -> int {
        if self.cursor + k < self.len() {
            self.cursor + k
        } else {
            self.cursor + k - self.len()
        }
    }

    /// Egress `i` is neither skipped nor of the wrong family.
    pub open spec fn available(self, skip: Option<Seq<bool>>, hint: Option<TargetAddressType>, i: int) -> bool {
        !skipped(skip, i) && family_matches(hint, self.egresses[i].is_ipv6)
    }

    /// The family filter applies only when some egress is available under it.
    pub open spec fn filter_active(self, skip: Option<Seq<bool>>, hint: Option<TargetAddressType>) -> bool {
        exists|i: int| 0 <= i < self.len() && self.available(skip, hint, i)
    }

    pub open spec fn eligible(self, skip: Option<Seq<bool>>, hint: Option<TargetAddressType>, i: int) -> bool {
        !skipped(skip, i) && (!self.filter_active(skip, hint) || family_matches(
            hint,
            self.egresses[i].is_ipv6,
        ))
    }

    /// The least `j >= k` such that the egress `j` steps after the cursor is
    /// eligible, or `len` when there is none.
    pub open spec fn first_eligible(self, skip: Option<Seq<bool>>, hint: Option<TargetAddressType>, k: int) -> int
        decreases self.len() - k,
    {
        if k >= self.len() {
            self.len()
        } else if self.eligible(skip, hint, self.position(k)) {
            k
        } else {
            self.first_eligible(skip, hint, k + 1)
        }
    }

    /// The least `j >= k` that is not skipped, or `len` when there is none.
    pub open spec fn first_unskipped(self, skip: Option<Seq<bool>>, k: int) -> int
        decreases self.len() - k,
    {
        if k >= self.len() {
            self.len()
        } else if !skipped(skip, k) {
            k
        } else {
            self.first_unskipped(skip, k + 1)
        }
    }

    /// One selection: the index returned and the state afterwards.
    pub open spec fn select(self, skip: Option<Seq<bool>>, hint: Option<TargetAddressType>) -> (int, PoolState) {
        let k = self.first_eligible(skip, hint, 0);
        if k < self.len() {
            let i = self.position(k);
            let run = if k == 0 {
                self.hits + 1
            } else {
                1
            };
            if run >= self.weight(i) {
                (i, PoolState { cursor: self.next(i), hits: 0, ..self })
            } else {
                (i, PoolState { cursor: i, hits: run, ..self })
            }
        } else {
            let j = self.first_unskipped(skip, 0);
            (if j < self.len() {
                j
            } else {
                self.cursor
            }, PoolState { hits: 0, ..self })
        }
    }
}

/// A fixed sequence of egresses with a weighted round-robin selector.
pub struct LoadBalancerPool {
    balancers: Vec<LoadBalancer>,
    current_index: usize,
    current_connections: u32,
}

impl View for LoadBalancerPool {
    type V = PoolState;

    closed spec fn view(&self) -> PoolState {
        PoolState {
            egresses: self.balancers@,
            cursor: self.current_index as int,
            hits: self.current_connections as int,
        }
    }
}

fn is_skipped(skip: Option<&[bool]>, i: usize) -> (r: bool)
    ensures
        r == skipped(skip_view(skip), i as int),
{
    match skip {
        Some(s) => i < s.len() && s[i],
        None => false,
    }
}

fn family_match(hint: Option<TargetAddressType>, is_ipv6: bool) -> (r: bool)
    ensures
        r == family_matches(hint, is_ipv6),
{
    match hint {
        Some(TargetAddressType::IPv4) => !is_ipv6,
        Some(TargetAddressType::IPv6) => is_ipv6,
        Some(TargetAddressType::Domain) | None => true,
    }
}

impl LoadBalancerPool {
    pub fn new(balancers: Vec<LoadBalancer>) -> (r: Self)
        requires
            balancers@.len() >= 1,
            forall|i: int| 0 <= i < balancers@.len() ==> #[trigger] balancers@[i].wf(),
        ensures
            r@ == (PoolState { egresses: balancers@, cursor: 0, hits: 0 }),
            r@.wf(),
    {
        assert(balancers@[0].wf());
        LoadBalancerPool { balancers, current_index: 0, current_connections: 0 }
    }

    pub fn len(&self) -> (r: usize)
        ensures
            r as int == self@.len(),
    {
        self.balancers.len()
    }

    /// Selects the next egress by weighted round-robin, preferring the target's
    /// family and never choosing a skipped egress unless all are skipped.
    pub fn get_load_balancer(&mut self, skip: Option<&[bool]>, target_type: Option<TargetAddressType>) -> (r: (
        LoadBalancer,
        usize,
    ))
        requires
            old(self)@.wf(),
        ensures
            final(self)@.wf(),
            r.1 as int == old(self)@.select(skip_view(skip), target_type).0,
            final(self)@ == old(self)@.select(skip_view(skip), target_type).1,
            r.1 < final(self)@.len(),
            r.0 == final(self)@.egresses[r.1 as int],
    {
        let ghost v = self@;
        let ghost sv = skip_view(skip);
        let n = self.balancers.len();

        let mut use_family_filter = false;
        let mut j: usize = 0;
        while j < n
            invariant
                sv == skip_view(skip),
                self@ == v,
                n as int == v.len(),
                j <= n,
                use_family_filter <==> exists|i: int| 0 <= i < j && v.available(sv, target_type, i),
            decreases n - j,
        {
            if !is_skipped(skip, j) && family_match(target_type, self.balancers[j].is_ipv6) {
                use_family_filter = true;
                assert(v.available(sv, target_type, j as int));
            } else {
                assert(!v.available(sv, target_type, j as int));
            }
            j += 1;
        }
        assert(use_family_filter == v.filter_active(sv, target_type));

        let start_index = self.current_index;
        let mut iterations: usize = 0;
        loop
            invariant
                sv == skip_view(skip),
                v == old(self)@,
                v.wf(),
                self.balancers@ == v.egresses,
                n as int == v.len(),
                use_family_filter == v.filter_active(sv, target_type),
                start_index as int == v.cursor,
                0 <= iterations < n,
                self.current_index as int == v.position(iterations as int),
                iterations == 0 ==> self.current_connections as int == v.hits,
                iterations > 0 ==> self.current_connections == 0,
                v.first_eligible(sv, target_type, 0) == v.first_eligible(
                    sv,
                    target_type,
                    iterations as int,
                ),
            decreases n - iterations,
        {
            let idx = self.current_index;
            let is_skip = is_skipped(skip, idx);
            let matches = !use_family_filter || family_match(
                target_type,
                self.balancers[idx].is_ipv6,
            );
            if !is_skip && matches {
                assert(v.eligible(sv, target_type, v.position(iterations as int)));
                assert(v.first_eligible(sv, target_type, iterations as int) == iterations);
                let next = if idx + 1 < n {
                    idx + 1
                } else {
                    0
                };
                assert(v.egresses[next as int].wf());
                assert(v.egresses[idx as int].wf());
                self.current_connections = self.current_connections + 1;
                if self.current_connections >= self.balancers[idx].contention_ratio {
                    self.current_connections = 0;
                    self.current_index = next;
                }
                assert(v.select(sv, target_type).0 == idx);
                assert(v.select(sv, target_type).1.cursor == self@.cursor);
                assert(v.select(sv, target_type).1.hits == self@.hits);
                assert(self@ == v.select(sv, target_type).1);
                let lb = self.balancers[idx].duplicate();
                return (lb, idx);
            }
            assert(!v.eligible(sv, target_type, v.position(iterations as int)));
            self.current_connections = 0;
            self.current_index = if idx + 1 < n {
                idx + 1
            } else {
                0
            };
            iterations += 1;

            if iterations >= n {
                assert(v.first_eligible(sv, target_type, n as int) == n);
                let mut i: usize = 0;
                while i < n
                    invariant
                        sv == skip_view(skip),
                        v == old(self)@,
                        v.wf(),
                        self.balancers@ == v.egresses,
                        self.current_index == start_index,
                        start_index as int == v.cursor,
                        self.current_connections == 0,
                        v.first_eligible(sv, target_type, 0) == n,
                        n as int == v.len(),
                        i <= n,
                        v.first_unskipped(sv, 0) == v.first_unskipped(sv, i as int),
                    decreases n - i,
                {
                    if !is_skipped(skip, i) {
                        assert(v.first_unskipped(sv, i as int) == i);
                        assert(v.egresses[v.cursor].wf());
                        assert(self@ == v.select(sv, target_type).1);
                        let lb = self.balancers[i].duplicate();
                        return (lb, i);
                    }
                    i += 1;
                }
                assert(v.first_unskipped(sv, n as int) == n);
                assert(v.egresses[v.cursor].wf());
                assert(self@ == v.select(sv, target_type).1);
                let lb = self.balancers[start_index].duplicate();
                return (lb, start_index);
            }
        }
    }
}

} // verus!

verus! {

proof fn lemma_first_eligible(v: PoolState, skip: Option<Seq<bool>>, hint: Option<TargetAddressType>, k: int)
    requires
        v.wf(),
        0 <= k <= v.len(),
    ensures
        k <= v.first_eligible(skip, hint, k) <= v.len(),
        v.first_eligible(skip, hint, k) < v.len() ==> v.eligible(
            skip,
            hint,
            v.position(v.first_eligible(skip, hint, k)),
        ),
        forall|j: int|
            k <= j < v.first_eligible(skip, hint, k) ==> !v.eligible(skip, hint, #[trigger] v.position(j)),
    decreases v.len() - k,
{
    if k < v.len() && !v.eligible(skip, hint, v.position(k)) {
        lemma_first_eligible(v, skip, hint, k + 1);
    }
}

proof fn lemma_first_unskipped(v: PoolState, skip: Option<Seq<bool>>, k: int)
    requires
        0 <= k <= v.len(),
    ensures
        k <= v.first_unskipped(skip, k) <= v.len(),
        v.first_unskipped(skip, k) < v.len() ==> !skipped(skip, v.first_unskipped(skip, k)),
        forall|j: int| k <= j < v.first_unskipped(skip, k) ==> #[trigger] skipped(skip, j),
    decreases v.len() - k,
{
    if k < v.len() && skipped(skip, k) {
        lemma_first_unskipped(v, skip, k + 1);
    }
}

/// Every index lies some number of steps after the cursor.
proof fn lemma_position_onto(v: PoolState, i: int)
    requires
        v.wf(),
        0 <= i < v.len(),
    ensures
        v.position(if i >= v.cursor { i - v.cursor } else { i + v.len() - v.cursor }) == i,
{
}

/// A selection returns an index of the pool.
pub proof fn lemma_select_in_range(v: PoolState, skip: Option<Seq<bool>>, hint: Option<TargetAddressType>)
    requires
        v.wf(),
    ensures
        0 <= v.select(skip, hint).0 < v.len(),
        v.select(skip, hint).1.wf(),
        v.select(skip, hint).1.egresses == v.egresses,
{
    lemma_first_eligible(v, skip, hint, 0);
    lemma_first_unskipped(v, skip, 0);
    let k = v.first_eligible(skip, hint, 0);
    if k < v.len() {
        let i = v.position(k);
        assert(v.egresses[i].wf());
        assert(v.egresses[v.next(i)].wf());
    } else {
        assert(v.egresses[v.cursor].wf());
    }
}

/// A skipped egress is returned only when every egress is skipped.
pub proof fn lemma_skipped_only_when_exhausted(
    v: PoolState,
    skip: Option<Seq<bool>>,
    hint: Option<TargetAddressType>,
)
    requires
        v.wf(),
    ensures
        skipped(skip, v.select(skip, hint).0) ==> forall|i: int|
            0 <= i < v.len() ==> #[trigger] skipped(skip, i),
{
    lemma_first_eligible(v, skip, hint, 0);
    lemma_first_unskipped(v, skip, 0);
}

/// When some non-skipped egress has the target's family, the selected egress
/// has that family.
pub proof fn lemma_family_affinity(v: PoolState, skip: Option<Seq<bool>>, hint: Option<TargetAddressType>, a: int)
    requires
        v.wf(),
        hint == Some(TargetAddressType::IPv4) || hint == Some(TargetAddressType::IPv6),
        0 <= a < v.len(),
        !skipped(skip, a),
        family_matches(hint, v.egresses[a].is_ipv6),
    ensures
        family_matches(hint, v.egresses[v.select(skip, hint).0].is_ipv6),
        !skipped(skip, v.select(skip, hint).0),
{
    assert(v.available(skip, hint, a));
    assert(v.filter_active(skip, hint));
    lemma_first_eligible(v, skip, hint, 0);
    lemma_position_onto(v, a);
    let j = if a >= v.cursor {
        a - v.cursor
    } else {
        a + v.len() - v.cursor
    };
    assert(v.eligible(skip, hint, v.position(j)));
}

/// A pool of one egress always selects it, whatever is skipped.
pub proof fn lemma_single_egress(v: PoolState, skip: Option<Seq<bool>>, hint: Option<TargetAddressType>)
    requires
        v.wf(),
        v.len() == 1,
    ensures
        v.select(skip, hint).0 == 0,
{
    lemma_first_eligible(v, skip, hint, 0);
    lemma_first_unskipped(v, skip, 0);
}

/// With no skip vector and no family hint, the egress at the cursor is selected;
/// the cursor stays until it has been selected as many times in a row as its weight.
pub proof fn lemma_plain_select(v: PoolState)
    requires
        v.wf(),
    ensures
        v.select(None, None).0 == v.cursor,
        v.hits + 1 < v.weight(v.cursor) ==> v.select(None, None).1 == (PoolState {
            hits: v.hits + 1,
            ..v
        }),
        v.hits + 1 >= v.weight(v.cursor) ==> v.select(None, None).1 == (PoolState {
            cursor: v.next(v.cursor),
            hits: 0,
            ..v
        }),
{
    assert(v.available(None, None, v.cursor));
    assert(v.eligible(None, None, v.position(0)));
}

/// When every weight is one, selection is plain round-robin: the egress at the
/// cursor is returned and the cursor moves to the next index.
pub proof fn lemma_unit_weights_round_robin(v: PoolState)
    requires
        v.wf(),
        forall|i: int| 0 <= i < v.len() ==> #[trigger] v.weight(i) == 1,
    ensures
        v.select(None, None).0 == v.cursor,
        v.select(None, None).1 == (PoolState { cursor: v.next(v.cursor), hits: 0, ..v }),
{
    assert(v.weight(v.cursor) == 1);
    lemma_plain_select(v);
}

} // verus!

verus! {

/// The indices returned by `m` successive selections with no skip vector and no
/// family hint, and the state after them.
pub open spec fn plain_run(v: PoolState, m: nat) -> (Seq<int>, PoolState)
    decreases m,
{
    if m == 0 {
        (Seq::empty(), v)
    } else {
        let rest = plain_run(v.select(None, None).1, (m - 1) as nat);
        (seq![v.select(None, None).0] + rest.0, rest.1)
    }
}

/// `m` copies of `x`.
pub open spec fn copies(m: nat, x: int) -> Seq<int> {
    Seq::new(m, |j: int| x)
}

/// One full period of plain selections from index `i` on: each index, in order,
/// as many times as its weight.
pub open spec fn schedule(v: PoolState, i: int) -> Seq<int>
    decreases v.len() - i,
{
    if i >= v.len() || i < 0 {
        Seq::empty()
    } else {
        copies(v.weight(i) as nat, i) + schedule(v, i + 1)
    }
}

/// The sum of the weights of the indices from `i` on.
pub open spec fn total_weight(v: PoolState, i: int) -> nat
    decreases v.len() - i,
{
    if i >= v.len() || i < 0 {
        0
    } else {
        v.weight(i) as nat + total_weight(v, i + 1)
    }
}

/// How many times `x` occurs in `s`.
pub open spec fn occurrences(s: Seq<int>, x: int) -> nat
    decreases s.len(),
{
    if s.len() == 0 {
        0
    } else {
        occurrences(s.drop_last(), x) + if s.last() == x {
            1nat
        } else {
            0nat
        }
    }
}

proof fn lemma_plain_run_split(v: PoolState, a: nat, b: nat)
    ensures
        plain_run(v, a + b).0 == plain_run(v, a).0 + plain_run(plain_run(v, a).1, b).0,
        plain_run(v, a + b).1 == plain_run(plain_run(v, a).1, b).1,
    decreases a,
{
    if a == 0 {
        assert(plain_run(v, a + b).0 =~= plain_run(v, a).0 + plain_run(plain_run(v, a).1, b).0);
    } else {
        let v2 = v.select(None, None).1;
        lemma_plain_run_split(v2, (a - 1) as nat, b);
        assert((a + b - 1) as nat == ((a - 1) as nat + b) as nat);
        assert(plain_run(v, a + b).0 =~= plain_run(v, a).0 + plain_run(plain_run(v, a).1, b).0);
    }
}

/// The egress at the cursor is selected until it has been selected as many
/// times in a row as its weight; then the cursor moves on with a fresh count.
pub proof fn lemma_run_at_cursor(v: PoolState)
    requires
        v.wf(),
    ensures
        plain_run(v, (v.weight(v.cursor) - v.hits) as nat).0 == copies(
            (v.weight(v.cursor) - v.hits) as nat,
            v.cursor,
        ),
        plain_run(v, (v.weight(v.cursor) - v.hits) as nat).1 == (PoolState {
            cursor: v.next(v.cursor),
            hits: 0,
            ..v
        }),
    decreases v.weight(v.cursor) - v.hits,
{
    let m = (v.weight(v.cursor) - v.hits) as nat;
    lemma_plain_select(v);
    let v2 = v.select(None, None).1;
    if v.hits + 1 < v.weight(v.cursor) {
        lemma_run_at_cursor(v2);
        assert((m - 1) as nat == (v2.weight(v2.cursor) - v2.hits) as nat);
        assert(plain_run(v, m).0 =~= copies(m, v.cursor));
    } else {
        assert(m == 1);
        assert(plain_run(v2, 0).0 =~= Seq::empty());
        assert(plain_run(v2, 0).1 == v2);
        assert(plain_run(v, m).0 =~= copies(m, v.cursor));
    }
}

proof fn lemma_schedule_from(v: PoolState, i: int)
    requires
        v.wf(),
        0 <= i < v.len(),
    ensures
        plain_run(PoolState { cursor: i, hits: 0, ..v }, total_weight(v, i)).0 == schedule(v, i),
        plain_run(PoolState { cursor: i, hits: 0, ..v }, total_weight(v, i)).1 == (PoolState {
            cursor: 0,
            hits: 0,
            ..v
        }),
    decreases v.len() - i,
{
    let s = PoolState { cursor: i, hits: 0, ..v };
    assert(v.egresses[i].wf());
    let w = v.weight(i) as nat;
    lemma_run_at_cursor(s);
    lemma_plain_run_split(s, w, total_weight(v, i + 1));
    let s2 = PoolState { cursor: v.next(i), hits: 0, ..v };
    if i + 1 < v.len() {
        lemma_schedule_from(v, i + 1);
    } else {
        assert(schedule(v, i + 1) =~= Seq::empty());
        assert(plain_run(s2, 0).0 =~= Seq::empty());
    }
    assert(plain_run(s, total_weight(v, i)).0 =~= schedule(v, i));
}

proof fn lemma_occurrences_concat(a: Seq<int>, b: Seq<int>, x: int)
    ensures
        occurrences(a + b, x) == occurrences(a, x) + occurrences(b, x),
    decreases b.len(),
{
    if b.len() == 0 {
        assert(a + b =~= a);
    } else {
        lemma_occurrences_concat(a, b.drop_last(), x);
        assert((a + b).drop_last() =~= a + b.drop_last());
    }
}

proof fn lemma_occurrences_copies(m: nat, y: int, x: int)
    ensures
        occurrences(copies(m, y), x) == if y == x {
            m
        } else {
            0
        },
    decreases m,
{
    if m > 0 {
        lemma_occurrences_copies((m - 1) as nat, y, x);
        assert(copies(m, y).drop_last() =~= copies((m - 1) as nat, y));
    }
}

proof fn lemma_schedule_occurrences(v: PoolState, i: int, x: int)
    requires
        0 <= i,
    ensures
        occurrences(schedule(v, i), x) == if i <= x < v.len() {
            v.weight(x) as nat
        } else {
            0
        },
    decreases v.len() - i,
{
    if i < v.len() {
        lemma_occurrences_concat(copies(v.weight(i) as nat, i), schedule(v, i + 1), x);
        lemma_occurrences_copies(v.weight(i) as nat, i, x);
        lemma_schedule_occurrences(v, i + 1, x);
    }
}

/// Plain selection is periodic with proportional frequencies: from the initial
/// state, the next total-weight selections return each index exactly as many
/// times as its weight, in index order, and leave the selector in its initial
/// state again.
pub proof fn lemma_weighted_period(v: PoolState, x: int)
    requires
        v.wf(),
        v.cursor == 0,
        v.hits == 0,
        0 <= x < v.len(),
    ensures
        plain_run(v, total_weight(v, 0)).0 == schedule(v, 0),
        plain_run(v, total_weight(v, 0)).1 == v,
        occurrences(plain_run(v, total_weight(v, 0)).0, x) == v.weight(x),
{
    lemma_schedule_from(v, 0);
    assert(v == PoolState { cursor: 0, hits: 0, ..v });
    lemma_schedule_occurrences(v, 0, x);
}

} // verus!
