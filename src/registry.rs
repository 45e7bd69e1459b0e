use crate::metric_scope::MetricType;
use crate::metrics::{
    after_expiry_check, after_insert, wrapped_add, wrapped_sub, Counter, DiscreteGauge, Gauge,
    Histogram,
};
use crate::scoped_catalogue::{path_fields, path_head, slot_at, strings_view};
use crate::text::{starts_with, str_is, strip_prefix};
use vstd::prelude::*;

verus! {

/// The storage of one metric.
pub enum MetricCell {
    Counter(Counter),
    Gauge(Gauge),
    DiscreteGauge(DiscreteGauge),
    Histogram(Histogram),
}

/// The families of metrics that a name is looked up in: counters, gauges of
/// either kind, and histograms.
#[derive(Clone, Copy, Debug, PartialEq, Eq, Structural)]
pub enum MetricFamily {
    Counters,
    Gauges,
    Histograms,
}

pub open spec fn in_family(c: MetricCell, f: MetricFamily) -> bool {
    match f {
        MetricFamily::Counters => c is Counter,
        MetricFamily::Gauges => c is Gauge || c is DiscreteGauge,
        MetricFamily::Histograms => c is Histogram,
    }
}

/// A metric field of a scope instance, with its storage.
pub struct MetricSlot {
    /// The name of the key's constant.
    pub key: String,
    /// The field's own name.
    pub instance: String,
    /// The published name, the last segment of the metric's key.
    pub name: String,
    pub hidden: bool,
    pub cell: MetricCell,
}

/// A field that holds a scope instance.
pub struct SubScope {
    /// The field's name, a segment of the keys below it.
    pub field: String,
    pub hidden: bool,
    pub scope: ScopeInstance,
}

/// A field of a scope instance.
pub enum Slot {
    Metric(MetricSlot),
    Sub(SubScope),
    /// A hidden field of another type; it holds its name and has no storage here.
    Opaque(String),
}

/// The storage of one scope: one slot per declared field, in order.
pub struct ScopeInstance {
    /// The name of the declared scope.
    pub name: String,
    pub slots: Vec<Slot>,
}

/// The place of a metric below a scope: the indices of the sub-scope slots
/// passed on the way down, then the index of the metric's slot.
pub ghost struct MetricPath {
    pub subs: Seq<int>,
    pub metric: int,
}

/// The path one level further up, through sub-scope slot `j`.
pub open spec fn path_through(j: int, p: MetricPath) -> MetricPath {
    MetricPath { subs: seq![j] + p.subs, metric: p.metric }
}

/// The path one level further down.
pub open spec fn path_tail(p: MetricPath) -> MetricPath {
    MetricPath { subs: p.subs.drop_first(), metric: p.metric }
}

/// Whether a slot is a visible metric of family `f` published as `name`.
pub open spec fn local_hit(s: Slot, name: Seq<char>, f: MetricFamily) -> bool {
    &&& s is Metric
    &&& !s->Metric_0.hidden
    &&& in_family(s->Metric_0.cell, f)
    &&& s->Metric_0.name@ == name
}

/// The first slot from index `i` on that `local_hit` accepts.
pub open spec fn local_from(slots: Seq<Slot>, name: Seq<char>, f: MetricFamily, i: int) -> Option<
    int,
>
    decreases slots.len() - i,
{
    if i < 0 || i >= slots.len() {
        None
    } else if local_hit(slots[i], name, f) {
        Some(i)
    } else {
        local_from(slots, name, f, i + 1)
    }
}

/// Whether slot `s` is a visible sub-scope whose segment starts `name`.
pub open spec fn sub_prefix_hit(s: Slot, sep: Seq<char>, name: Seq<char>) -> bool {
    &&& s is Sub
    &&& !s->Sub_0.hidden
    &&& starts_with(name, s->Sub_0.field@ + sep)
}

/// `name` without the segment of sub-scope slot `s`.
pub open spec fn below(s: Slot, sep: Seq<char>, name: Seq<char>) -> Seq<char> {
    name.subrange((s->Sub_0.field@ + sep).len() as int, name.len() as int)
}

/// The metric that a scope resolves `name` to: a visible metric of the
/// family published under `name` by the scope itself, the first in order;
/// else, in the order of the slots, the first visible sub-scope whose
/// segment and separator start `name` and which resolves the rest.
pub open spec fn find_in(s: ScopeInstance, sep: Seq<char>, name: Seq<char>, f: MetricFamily) -> Option<
    MetricPath,
>
    decreases s, 1int,
{
    match local_from(s.slots@, name, f, 0) {
        Some(k) => Some(MetricPath { subs: Seq::empty(), metric: k }),
        None => find_in_subs(s.slots@, sep, name, f, 0),
    }
}

/// The sub-scope part of `find_in`, from slot `j` on.
pub open spec fn find_in_subs(
    slots: Seq<Slot>,
    sep: Seq<char>,
    name: Seq<char>,
    f: MetricFamily,
    j: int,
) -> Option<MetricPath>
    decreases slots, 0int, slots.len() - j,
{
    if j < 0 || j >= slots.len() {
        None
    } else if sub_prefix_hit(slots[j], sep, name) {
        match find_in(slots[j]->Sub_0.scope, sep, below(slots[j], sep, name), f) {
            Some(p) => Some(path_through(j, p)),
            None => find_in_subs(slots, sep, name, f, j + 1),
        }
    } else {
        find_in_subs(slots, sep, name, f, j + 1)
    }
}

/// Whether `p` leads from `s` through visible sub-scopes to a visible metric
/// of family `f`.
pub open spec fn reachable(s: ScopeInstance, p: MetricPath, f: MetricFamily) -> bool
    decreases p.subs.len(),
{
    if p.subs.len() == 0 {
        &&& 0 <= p.metric < s.slots@.len()
        &&& s.slots@[p.metric] is Metric
        &&& !s.slots@[p.metric]->Metric_0.hidden
        &&& in_family(s.slots@[p.metric]->Metric_0.cell, f)
    } else {
        &&& 0 <= p.subs[0] < s.slots@.len()
        &&& s.slots@[p.subs[0]] is Sub
        &&& !s.slots@[p.subs[0]]->Sub_0.hidden
        &&& reachable(s.slots@[p.subs[0]]->Sub_0.scope, path_tail(p), f)
    }
}

/// Whether `p` leads from `s` to a metric of family `f`, hidden or not.
pub open spec fn leads_to(s: ScopeInstance, p: MetricPath, f: MetricFamily) -> bool
    decreases p.subs.len(),
{
    if p.subs.len() == 0 {
        &&& 0 <= p.metric < s.slots@.len()
        &&& s.slots@[p.metric] is Metric
        &&& in_family(s.slots@[p.metric]->Metric_0.cell, f)
    } else {
        &&& 0 <= p.subs[0] < s.slots@.len()
        &&& s.slots@[p.subs[0]] is Sub
        &&& leads_to(s.slots@[p.subs[0]]->Sub_0.scope, path_tail(p), f)
    }
}

/// The key of the metric at `p` below `s`: the field names of the
/// sub-scopes on the way, each followed by the separator, then the metric's
/// published name.
pub open spec fn key_in(s: ScopeInstance, sep: Seq<char>, p: MetricPath) -> Seq<char>
    decreases p.subs.len(),
{
    if p.subs.len() == 0 {
        s.slots@[p.metric]->Metric_0.name@
    } else {
        s.slots@[p.subs[0]]->Sub_0.field@ + sep + key_in(
            s.slots@[p.subs[0]]->Sub_0.scope,
            sep,
            path_tail(p),
        )
    }
}

/// The storage at `p` below `s`.
pub open spec fn cell_at(s: ScopeInstance, p: MetricPath) -> MetricCell
    decreases p.subs.len(),
{
    if p.subs.len() == 0 {
        s.slots@[p.metric]->Metric_0.cell
    } else {
        cell_at(s.slots@[p.subs[0]]->Sub_0.scope, path_tail(p))
    }
}

proof fn lemma_local_sound(slots: Seq<Slot>, name: Seq<char>, f: MetricFamily, i: int)
    ensures
        local_from(slots, name, f, i) matches Some(k) ==> i <= k < slots.len() && local_hit(
            slots[k],
            name,
            f,
        ),
    decreases slots.len() - i,
{
    if 0 <= i < slots.len() && !local_hit(slots[i], name, f) {
        lemma_local_sound(slots, name, f, i + 1);
    }
}

proof fn lemma_local_complete(slots: Seq<Slot>, name: Seq<char>, f: MetricFamily, i: int, k: int)
    requires
        0 <= i <= k < slots.len(),
        local_hit(slots[k], name, f),
    ensures
        local_from(slots, name, f, i) is Some,
    decreases k - i,
{
    if i < k && !local_hit(slots[i], name, f) {
        lemma_local_complete(slots, name, f, i + 1, k);
    }
}

/// What `find_in` resolves is a visible metric of the family, and its key
/// is the name looked up.
pub proof fn lemma_find_sound(s: ScopeInstance, sep: Seq<char>, name: Seq<char>, f: MetricFamily)
    ensures
        find_in(s, sep, name, f) matches Some(p) ==> reachable(s, p, f) && key_in(s, sep, p)
            == name,
    decreases s, 1int,
{
    lemma_local_sound(s.slots@, name, f, 0);
    lemma_find_subs_sound(s.slots@, sep, name, f, 0);
}

proof fn lemma_find_subs_sound(
    slots: Seq<Slot>,
    sep: Seq<char>,
    name: Seq<char>,
    f: MetricFamily,
    j: int,
)
    ensures
        find_in_subs(slots, sep, name, f, j) matches Some(p) ==> {
            &&& p.subs.len() > 0
            &&& 0 <= p.subs[0] < slots.len()
            &&& slots[p.subs[0]] is Sub
            &&& !slots[p.subs[0]]->Sub_0.hidden
            &&& reachable(slots[p.subs[0]]->Sub_0.scope, path_tail(p), f)
            &&& slots[p.subs[0]]->Sub_0.field@ + sep + key_in(
                slots[p.subs[0]]->Sub_0.scope,
                sep,
                path_tail(p),
            ) == name
        },
    decreases slots, 0int, slots.len() - j,
{
    if 0 <= j < slots.len() {
        if sub_prefix_hit(slots[j], sep, name) {
            let sub = slots[j]->Sub_0;
            let rest = below(slots[j], sep, name);
            lemma_find_sound(sub.scope, sep, rest, f);
            match find_in(sub.scope, sep, rest, f) {
                Some(q) => {
                    let p = path_through(j, q);
                    assert((seq![j] + q.subs).drop_first() =~= q.subs);
                    assert(path_tail(p) == q);
                    assert(name =~= sub.field@ + sep + rest);
                },
                None => {
                    lemma_find_subs_sound(slots, sep, name, f, j + 1);
                },
            }
        } else {
            lemma_find_subs_sound(slots, sep, name, f, j + 1);
        }
    }
}

proof fn lemma_find_subs_complete(
    slots: Seq<Slot>,
    sep: Seq<char>,
    name: Seq<char>,
    f: MetricFamily,
    i: int,
    j: int,
)
    requires
        0 <= i <= j < slots.len(),
        sub_prefix_hit(slots[j], sep, name),
        find_in(slots[j]->Sub_0.scope, sep, below(slots[j], sep, name), f) is Some,
    ensures
        find_in_subs(slots, sep, name, f, i) is Some,
    decreases j - i,
{
    if i < j {
        lemma_find_subs_complete(slots, sep, name, f, i + 1, j);
    }
}

/// Every visible metric of the family is found under its key, though
/// maybe as another metric with the same key.
pub proof fn lemma_find_complete(s: ScopeInstance, sep: Seq<char>, p: MetricPath, f: MetricFamily)
    requires
        reachable(s, p, f),
    ensures
        find_in(s, sep, key_in(s, sep, p), f) is Some,
    decreases p.subs.len(),
{
    let name = key_in(s, sep, p);
    if p.subs.len() == 0 {
        lemma_local_complete(s.slots@, name, f, 0, p.metric);
    } else if local_from(s.slots@, name, f, 0) is None {
        let j = p.subs[0];
        let sub = s.slots@[j]->Sub_0;
        let rest = key_in(sub.scope, sep, path_tail(p));
        assert(name.subrange(0, (sub.field@ + sep).len() as int) =~= sub.field@ + sep);
        assert(below(s.slots@[j], sep, name) =~= rest);
        lemma_find_complete(sub.scope, sep, path_tail(p), f);
        lemma_find_subs_complete(s.slots@, sep, name, f, 0, j);
    }
}

/// The place of a metric below a scope; see `MetricPath`.
pub struct CellPath {
    pub subs: Vec<usize>,
    pub metric: usize,
}

impl View for CellPath {
    type V = MetricPath;

    open spec fn view(&self) -> MetricPath {
        MetricPath { subs: self.subs@.map_values(|j: usize| j as int), metric: self.metric as int }
    }
}

/// The view of an optional place.
pub open spec fn opt_path(r: Option<CellPath>) -> Option<MetricPath> {
    match r {
        Some(c) => Some(c@),
        None => None,
    }
}

fn find_local(slots: &Vec<Slot>, name: &str, f: MetricFamily) -> (r: Option<usize>)
    ensures
        r matches Some(k) ==> local_from(slots@, name@, f, 0) == Some(k as int),
        r is None ==> local_from(slots@, name@, f, 0) is None,
{
    let mut i: usize = 0;
    while i < slots.len()
        invariant
            i <= slots@.len(),
            local_from(slots@, name@, f, 0) == local_from(slots@, name@, f, i as int),
        decreases slots@.len() - i,
    {
        match &slots[i] {
            Slot::Metric(m) => {
                let fam = match &m.cell {
                    MetricCell::Counter(_) => f == MetricFamily::Counters,
                    MetricCell::Gauge(_) => f == MetricFamily::Gauges,
                    MetricCell::DiscreteGauge(_) => f == MetricFamily::Gauges,
                    MetricCell::Histogram(_) => f == MetricFamily::Histograms,
                };
                if !m.hidden && fam && str_is(m.name.as_str(), name) {
                    return Some(i);
                }
            },
            _ => {},
        }
        i = i + 1;
    }
    None
}

/// Resolves `name` below scope `s`; see `find_in`.
pub fn find_path(s: &ScopeInstance, sep: &str, name: &str, f: MetricFamily) -> (r: Option<CellPath>)
    ensures
        opt_path(r) == find_in(*s, sep@, name@, f),
    decreases s,
{
    match find_local(&s.slots, name, f) {
        Some(k) => {
            let r = CellPath { subs: Vec::new(), metric: k };
            assert(r@.subs =~= Seq::<int>::empty());
            return Some(r);
        },
        None => {},
    }
    let mut j: usize = 0;
    while j < s.slots.len()
        invariant
            j <= s.slots@.len(),
            find_in(*s, sep@, name@, f) == find_in_subs(s.slots@, sep@, name@, f, j as int),
        decreases s.slots@.len() - j,
    {
        match &s.slots[j] {
            Slot::Sub(sub) => {
                if !sub.hidden {
                    let mut prefix = sub.field.clone();
                    prefix.append(sep);
                    match strip_prefix(name, prefix.as_str()) {
                        Some(rest) => {
                            assert(rest@ == below(s.slots@[j as int], sep@, name@));
                            match find_path(&sub.scope, sep, rest, f) {
                                Some(q) => {
                                    let mut subs = q.subs;
                                    subs.insert(0, j);
                                    let r = CellPath { subs, metric: q.metric };
                                    assert(r@.subs =~= seq![j as int] + q@.subs);
                                    assert(r@ == path_through(j as int, q@));
                                    return Some(r);
                                },
                                None => {},
                            }
                        },
                        None => {},
                    }
                }
            },
            _ => {},
        }
        j = j + 1;
    }
    None
}

/// What a closed catalogue holds: the storage of the root scope, with the
/// prefix that heads every key and the separator between key segments.
pub struct Catalogue {
    /// The name of the namespace's outermost module.
    pub module: String,
    /// The root's name followed by the separator, or nothing.
    pub prefix: String,
    pub separator: String,
    pub root: ScopeInstance,
}

/// The metric that a catalogue resolves `name` to: the root prefix is
/// stripped, then the root scope resolves the rest.
pub open spec fn catalogue_find(c: Catalogue, name: Seq<char>, f: MetricFamily) -> Option<
    MetricPath,
> {
    if starts_with(name, c.prefix@) {
        find_in(c.root, c.separator@, name.subrange(c.prefix@.len() as int, name.len() as int), f)
    } else {
        None
    }
}

/// The full key of the metric at `p`.
pub open spec fn catalogue_key(c: Catalogue, p: MetricPath) -> Seq<char> {
    c.prefix@ + key_in(c.root, c.separator@, p)
}

impl Catalogue {
    /// Resolves a full key to the place of a metric of family `f`; see
    /// `catalogue_find`.
    pub fn find(&self, name: &str, f: MetricFamily) -> (r: Option<CellPath>)
        ensures
            opt_path(r) == catalogue_find(*self, name@, f),
    {
        match strip_prefix(name, self.prefix.as_str()) {
            Some(rest) => find_path(&self.root, self.separator.as_str(), rest, f),
            None => None,
        }
    }

    /// The counter registered under `name`, if any.
    pub fn find_counter(&self, name: &str) -> (r: Option<CellPath>)
        ensures
            opt_path(r) == catalogue_find(*self, name@, MetricFamily::Counters),
    {
        self.find(name, MetricFamily::Counters)
    }

    /// The gauge, of either kind, registered under `name`, if any.
    pub fn find_gauge(&self, name: &str) -> (r: Option<CellPath>)
        ensures
            opt_path(r) == catalogue_find(*self, name@, MetricFamily::Gauges),
    {
        self.find(name, MetricFamily::Gauges)
    }

    /// The histogram registered under `name`, if any.
    pub fn find_histogram(&self, name: &str) -> (r: Option<CellPath>)
        ensures
            opt_path(r) == catalogue_find(*self, name@, MetricFamily::Histograms),
    {
        self.find(name, MetricFamily::Histograms)
    }
}

/// Whether catalogue `n` is `o` after `val` was added to the counter that
/// `name` resolves to: that counter alone changed; where `name` resolves to no
/// counter, nothing changed.
pub open spec fn counter_incremented(o: Catalogue, n: Catalogue, name: Seq<char>, val: u64) -> bool {
    match catalogue_find(o, name, MetricFamily::Counters) {
        Some(p) => {
            &&& updated_at(o.root, n.root, p)
            &&& cell_at(n.root, p) is Counter
            &&& cell_at(n.root, p)->Counter_0@ == wrapped_add(cell_at(o.root, p)->Counter_0@, val)
        },
        None => n.root == o.root,
    }
}

/// Incrementing a counter by its full key, then reading it, gives the value
/// before plus the increment, where the sum stays within `u64`; where no other
/// visible counter has the same key.
pub proof fn lemma_increment_round_trip(o: Catalogue, n: Catalogue, p: MetricPath, val: u64)
    requires
        reachable(o.root, p, MetricFamily::Counters),
        keys_distinct(o, MetricFamily::Counters),
        counter_incremented(o, n, catalogue_key(o, p), val),
    ensures
        cell_value(cell_at(n.root, p)) == Some(wrapped_add(cell_at(o.root, p)->Counter_0@, val)),
        cell_at(o.root, p)->Counter_0@ + val <= u64::MAX ==> cell_value(cell_at(n.root, p)) == Some(
            (cell_at(o.root, p)->Counter_0@ + val) as u64,
        ),
{
    lemma_key_resolves(o, p, MetricFamily::Counters);
}

/// Whether no two visible metrics of family `f` share a full key.
pub open spec fn keys_distinct(c: Catalogue, f: MetricFamily) -> bool {
    forall|p: MetricPath, q: MetricPath|
        reachable(c.root, p, f) && reachable(c.root, q, f) && #[trigger] catalogue_key(c, p)
            == #[trigger] catalogue_key(c, q) ==> p == q
}

/// Whatever a catalogue resolves a name to is a visible metric of the
/// family whose full key is that name.
pub proof fn lemma_catalogue_find_sound(c: Catalogue, name: Seq<char>, f: MetricFamily)
    ensures
        catalogue_find(c, name, f) matches Some(p) ==> reachable(c.root, p, f) && catalogue_key(
            c,
            p,
        ) == name,
{
    if starts_with(name, c.prefix@) {
        let rest = name.subrange(c.prefix@.len() as int, name.len() as int);
        lemma_find_sound(c.root, c.separator@, rest, f);
        assert(name =~= c.prefix@ + rest);
    }
}

/// The full key of every visible metric resolves to that very metric, where
/// no other visible metric of its family has the same key.
pub proof fn lemma_key_resolves(c: Catalogue, p: MetricPath, f: MetricFamily)
    requires
        reachable(c.root, p, f),
        keys_distinct(c, f),
    ensures
        catalogue_find(c, catalogue_key(c, p), f) == Some(p),
{
    let name = catalogue_key(c, p);
    let k = key_in(c.root, c.separator@, p);
    assert(name.subrange(0, c.prefix@.len() as int) =~= c.prefix@);
    assert(name.subrange(c.prefix@.len() as int, name.len() as int) =~= k);
    lemma_find_complete(c.root, c.separator@, p, f);
    lemma_catalogue_find_sound(c, name, f);
    let q = catalogue_find(c, name, f)->Some_0;
    assert(catalogue_key(c, q) == catalogue_key(c, p));
}

/// The key that a hidden metric, or a metric below a hidden scope, would
/// have resolves to nothing, unless a visible metric of its family has that
/// same key.
pub proof fn lemma_hidden_unresolved(c: Catalogue, p: MetricPath, f: MetricFamily)
    requires
        leads_to(c.root, p, f),
        !reachable(c.root, p, f),
        forall|q: MetricPath|
            reachable(c.root, q, f) ==> #[trigger] catalogue_key(c, q) != catalogue_key(c, p),
    ensures
        catalogue_find(c, catalogue_key(c, p), f) is None,
{
    lemma_catalogue_find_sound(c, catalogue_key(c, p), f);
}

/// Whether `p` leads from `s` to a metric slot, of any kind.
pub open spec fn valid_path(s: ScopeInstance, p: MetricPath) -> bool
    decreases p.subs.len(),
{
    if p.subs.len() == 0 {
        0 <= p.metric < s.slots@.len() && s.slots@[p.metric] is Metric
    } else {
        &&& 0 <= p.subs[0] < s.slots@.len()
        &&& s.slots@[p.subs[0]] is Sub
        &&& valid_path(s.slots@[p.subs[0]]->Sub_0.scope, path_tail(p))
    }
}

proof fn lemma_reachable_valid(s: ScopeInstance, p: MetricPath, f: MetricFamily)
    requires
        reachable(s, p, f),
    ensures
        valid_path(s, p),
    decreases p.subs.len(),
{
    if p.subs.len() > 0 {
        lemma_reachable_valid(s.slots@[p.subs[0]]->Sub_0.scope, path_tail(p), f);
    }
}

/// An update of one metric.
pub enum CellOp {
    /// Adds to a counter.
    Increment(u64),
    /// Stores a bit pattern in a gauge of real numbers.
    Store(u64),
    /// Sets a gauge of whole numbers.
    Assign(u64),
    /// Increases a gauge of whole numbers.
    Increase(u64),
    /// Decreases a gauge of whole numbers.
    Decrease(u64),
    /// Records a sample in a histogram, at the second given second.
    Record(u64, u64),
}

/// Whether `n` is cell `o` after `op`; an update of another kind of metric
/// leaves the cell as it is.
pub open spec fn op_result(o: MetricCell, n: MetricCell, op: CellOp) -> bool {
    match (o, op) {
        (MetricCell::Counter(a), CellOp::Increment(v)) => n is Counter && n->Counter_0@
            == wrapped_add(a@, v),
        (MetricCell::Gauge(_), CellOp::Store(v)) => n is Gauge && n->Gauge_0@ == v,
        (MetricCell::DiscreteGauge(_), CellOp::Assign(v)) => n is DiscreteGauge
            && n->DiscreteGauge_0@ == v,
        (MetricCell::DiscreteGauge(a), CellOp::Increase(v)) => n is DiscreteGauge
            && n->DiscreteGauge_0@ == wrapped_add(a@, v),
        (MetricCell::DiscreteGauge(a), CellOp::Decrease(v)) => n is DiscreteGauge
            && n->DiscreteGauge_0@ == wrapped_sub(a@, v),
        (MetricCell::Histogram(h), CellOp::Record(x, now)) => n is Histogram && n->Histogram_0@
            == after_insert(h@, x, now),
        _ => n == o,
    }
}

fn apply_cell(c: &mut MetricCell, op: CellOp)
    ensures
        op_result(*old(c), *final(c), op),
{
    match c {
        MetricCell::Counter(x) => match op {
            CellOp::Increment(v) => x.increment(v),
            _ => {},
        },
        MetricCell::Gauge(x) => match op {
            CellOp::Store(v) => x.store(v),
            _ => {},
        },
        MetricCell::DiscreteGauge(x) => match op {
            CellOp::Assign(v) => x.set(v),
            CellOp::Increase(v) => x.increase(v),
            CellOp::Decrease(v) => x.decrease(v),
            _ => {},
        },
        MetricCell::Histogram(x) => match op {
            CellOp::Record(v, now) => x.insert(v, now),
            _ => {},
        },
    }
}

/// Whether scope `n` is scope `o` with only the storage at `p` changed.
pub open spec fn updated_at(o: ScopeInstance, n: ScopeInstance, p: MetricPath) -> bool
    decreases p.subs.len(),
{
    &&& n.name == o.name
    &&& n.slots@.len() == o.slots@.len()
    &&& if p.subs.len() == 0 {
        &&& forall|k: int| 0 <= k < o.slots@.len() && k != p.metric ==> #[trigger] n.slots@[k] == o.slots@[k]
        &&& n.slots@[p.metric] is Metric
        &&& n.slots@[p.metric]->Metric_0.key == o.slots@[p.metric]->Metric_0.key
        &&& n.slots@[p.metric]->Metric_0.instance == o.slots@[p.metric]->Metric_0.instance
        &&& n.slots@[p.metric]->Metric_0.name == o.slots@[p.metric]->Metric_0.name
        &&& n.slots@[p.metric]->Metric_0.hidden == o.slots@[p.metric]->Metric_0.hidden
    } else {
        let j = p.subs[0];
        &&& forall|k: int| 0 <= k < o.slots@.len() && k != j ==> #[trigger] n.slots@[k] == o.slots@[k]
        &&& n.slots@[j] is Sub
        &&& n.slots@[j]->Sub_0.field == o.slots@[j]->Sub_0.field
        &&& n.slots@[j]->Sub_0.hidden == o.slots@[j]->Sub_0.hidden
        &&& updated_at(o.slots@[j]->Sub_0.scope, n.slots@[j]->Sub_0.scope, path_tail(p))
    }
}

/// The path from depth `d` of `subs` on, ending at slot `m`.
pub open spec fn path_from(subs: Seq<usize>, d: int, m: usize) -> MetricPath {
    MetricPath { subs: subs.subrange(d, subs.len() as int).map_values(|j: usize| j as int), metric: m as int }
}

fn apply_at(s: &mut ScopeInstance, subs: &Vec<usize>, d: usize, m: usize, op: CellOp)
    requires
        d <= subs@.len(),
        valid_path(*old(s), path_from(subs@, d as int, m)),
    ensures
        updated_at(*old(s), *final(s), path_from(subs@, d as int, m)),
        op_result(
            cell_at(*old(s), path_from(subs@, d as int, m)),
            cell_at(*final(s), path_from(subs@, d as int, m)),
            op,
        ),
    decreases subs@.len() - d,
{
    let ghost p = path_from(subs@, d as int, m);
    if d == subs.len() {
        assert(p.subs.len() == 0);
        match &mut s.slots[m] {
            Slot::Metric(ms) => apply_cell(&mut ms.cell, op),
            _ => {},
        }
    } else {
        let j = subs[d];
        assert(p.subs[0] == j);
        assert(p.subs.drop_first() =~= path_from(subs@, d + 1, m).subs);
        assert(path_tail(p) == path_from(subs@, d + 1, m));
        match &mut s.slots[j] {
            Slot::Sub(sub) => apply_at(&mut sub.scope, subs, d + 1, m, op),
            _ => {},
        }
    }
}

impl Catalogue {
    /// Applies `op` to the metric that `name` resolves to in family `f`; a
    /// name that resolves to nothing changes nothing.
    pub fn update(&mut self, name: &str, f: MetricFamily, op: CellOp)
        ensures
            final(self).module == old(self).module,
            final(self).prefix == old(self).prefix,
            final(self).separator == old(self).separator,
            match catalogue_find(*old(self), name@, f) {
                Some(p) => updated_at(old(self).root, final(self).root, p) && op_result(
                    cell_at(old(self).root, p),
                    cell_at(final(self).root, p),
                    op,
                ),
                None => final(self).root == old(self).root,
            },
    {
        match self.find(name, f) {
            Some(p) => {
                proof {
                    lemma_catalogue_find_sound(*self, name@, f);
                    lemma_reachable_valid(self.root, p@, f);
                    assert(p.subs@.subrange(0, p.subs@.len() as int) =~= p.subs@);
                    assert(path_from(p.subs@, 0, p.metric).subs =~= p@.subs);
                    assert(path_from(p.subs@, 0, p.metric) == p@);
                }
                apply_at(&mut self.root, &p.subs, 0, p.metric, op);
            },
            None => {},
        }
    }

    /// Adds `val` to the counter registered under `name`, if any.
    pub fn increment_counter(&mut self, name: &str, val: u64)
        ensures
            final(self).prefix == old(self).prefix,
            final(self).separator == old(self).separator,
            counter_incremented(*old(self), *final(self), name@, val),
    {
        proof {
            lemma_catalogue_find_sound(*self, name@, MetricFamily::Counters);
            if catalogue_find(*self, name@, MetricFamily::Counters) is Some {
                lemma_reachable_cell(
                    self.root,
                    catalogue_find(*self, name@, MetricFamily::Counters)->Some_0,
                    MetricFamily::Counters,
                );
            }
        }
        self.update(name, MetricFamily::Counters, CellOp::Increment(val));
    }

    /// Records a sample, at second `now`, in the histogram registered under
    /// `name`, if any.
    pub fn record_histogram(&mut self, name: &str, sample: u64, now: u64)
        ensures
            final(self).prefix == old(self).prefix,
            final(self).separator == old(self).separator,
            match catalogue_find(*old(self), name@, MetricFamily::Histograms) {
                Some(p) => {
                    &&& updated_at(old(self).root, final(self).root, p)
                    &&& cell_at(final(self).root, p) is Histogram
                    &&& cell_at(final(self).root, p)->Histogram_0@ == after_insert(
                        cell_at(old(self).root, p)->Histogram_0@,
                        sample,
                        now,
                    )
                },
                None => final(self).root == old(self).root,
            },
    {
        proof {
            lemma_catalogue_find_sound(*self, name@, MetricFamily::Histograms);
            if catalogue_find(*self, name@, MetricFamily::Histograms) is Some {
                lemma_reachable_cell(
                    self.root,
                    catalogue_find(*self, name@, MetricFamily::Histograms)->Some_0,
                    MetricFamily::Histograms,
                );
            }
        }
        self.update(name, MetricFamily::Histograms, CellOp::Record(sample, now));
    }
}

proof fn lemma_reachable_cell(s: ScopeInstance, p: MetricPath, f: MetricFamily)
    requires
        reachable(s, p, f),
    ensures
        in_family(cell_at(s, p), f),
    decreases p.subs.len(),
{
    if p.subs.len() > 0 {
        lemma_reachable_cell(s.slots@[p.subs[0]]->Sub_0.scope, path_tail(p), f);
    }
}

/// The single number held by a counter or a gauge; `None` for a histogram.
pub open spec fn cell_value(c: MetricCell) -> Option<u64> {
    match c {
        MetricCell::Counter(x) => Some(x@),
        MetricCell::Gauge(x) => Some(x@),
        MetricCell::DiscreteGauge(x) => Some(x@),
        MetricCell::Histogram(_) => None,
    }
}

/// The kind of metric a cell stores.
pub open spec fn cell_type(c: MetricCell) -> MetricType {
    match c {
        MetricCell::Counter(_) => MetricType::Counter,
        MetricCell::Gauge(_) => MetricType::Gauge,
        MetricCell::DiscreteGauge(_) => MetricType::DiscreteGauge,
        MetricCell::Histogram(h) => MetricType::Histogram(h@.retention),
    }
}

fn cell_ref<'a>(s: &'a ScopeInstance, subs: &Vec<usize>, d: usize, m: usize) -> (r: Option<
    &'a MetricCell,
>)
    requires
        d <= subs@.len(),
    ensures
        r is Some <==> valid_path(*s, path_from(subs@, d as int, m)),
        r matches Some(c) ==> *c == cell_at(*s, path_from(subs@, d as int, m)),
    decreases subs@.len() - d,
{
    let ghost p = path_from(subs@, d as int, m);
    if d == subs.len() {
        assert(p.subs.len() == 0);
        if m >= s.slots.len() {
            return None;
        }
        match &s.slots[m] {
            Slot::Metric(ms) => Some(&ms.cell),
            _ => None,
        }
    } else {
        let j = subs[d];
        assert(p.subs[0] == j);
        assert(p.subs.drop_first() =~= path_from(subs@, d + 1, m).subs);
        assert(path_tail(p) == path_from(subs@, d + 1, m));
        if j >= s.slots.len() {
            return None;
        }
        match &s.slots[j] {
            Slot::Sub(sub) => cell_ref(&sub.scope, subs, d + 1, m),
            _ => None,
        }
    }
}

fn samples_at(s: &mut ScopeInstance, subs: &Vec<usize>, d: usize, m: usize, now: u64) -> (r: Vec<u64>)
    requires
        d <= subs@.len(),
        valid_path(*old(s), path_from(subs@, d as int, m)),
        cell_at(*old(s), path_from(subs@, d as int, m)) is Histogram,
    ensures
        updated_at(*old(s), *final(s), path_from(subs@, d as int, m)),
        cell_at(*final(s), path_from(subs@, d as int, m)) is Histogram,
        cell_at(*final(s), path_from(subs@, d as int, m))->Histogram_0@ == after_expiry_check(
            cell_at(*old(s), path_from(subs@, d as int, m))->Histogram_0@,
            now,
        ),
        r@.to_multiset() == cell_at(*final(s), path_from(subs@, d as int, m))->Histogram_0@.samples,
    decreases subs@.len() - d,
{
    let ghost p = path_from(subs@, d as int, m);
    if d == subs.len() {
        assert(p.subs.len() == 0);
        match &mut s.slots[m] {
            Slot::Metric(ms) => match &mut ms.cell {
                MetricCell::Histogram(h) => h.read(now),
                _ => Vec::new(),
            },
            _ => Vec::new(),
        }
    } else {
        let j = subs[d];
        assert(p.subs[0] == j);
        assert(p.subs.drop_first() =~= path_from(subs@, d + 1, m).subs);
        assert(path_tail(p) == path_from(subs@, d + 1, m));
        match &mut s.slots[j] {
            Slot::Sub(sub) => samples_at(&mut sub.scope, subs, d + 1, m, now),
            _ => Vec::new(),
        }
    }
}

/// Whether `p` leads from `s` through sub-scope fields named `fields` to a
/// metric stored in a field named `instance`.
pub open spec fn locates(s: ScopeInstance, fields: Seq<Seq<char>>, instance: Seq<char>, p: MetricPath) -> bool {
    &&& valid_path(s, p)
    &&& path_fields(s, p) == fields
    &&& slot_at(s, p).instance@ == instance
}

proof fn lemma_head_valid(s: ScopeInstance, p: MetricPath)
    requires
        valid_path(s, p),
    ensures
        0 <= path_head(p) < s.slots@.len(),
        p.subs.len() == 0 ==> s.slots@[path_head(p)] is Metric,
        p.subs.len() > 0 ==> s.slots@[path_head(p)] is Sub,
{
}

fn locate_in(s: &ScopeInstance, fields: &Vec<String>, d: usize, instance: &str) -> (r: Option<
    CellPath,
>)
    requires
        d <= fields@.len(),
    ensures
        r matches Some(p) ==> locates(
            *s,
            strings_view(fields@.subrange(d as int, fields@.len() as int)),
            instance@,
            p@,
        ),
        r is None ==> forall|p: MetricPath|
            !#[trigger] locates(
                *s,
                strings_view(fields@.subrange(d as int, fields@.len() as int)),
                instance@,
                p,
            ),
    decreases s,
{
    let ghost want = strings_view(fields@.subrange(d as int, fields@.len() as int));
    let mut j: usize = 0;
    while j < s.slots.len()
        invariant
            j <= s.slots@.len(),
            d <= fields@.len(),
            want == strings_view(fields@.subrange(d as int, fields@.len() as int)),
            forall|p: MetricPath| #[trigger] locates(*s, want, instance@, p) ==> path_head(p) >= j,
        decreases s.slots@.len() - j,
    {
        match &s.slots[j] {
            Slot::Metric(ms) => {
                if d == fields.len() && str_is(ms.instance.as_str(), instance) {
                    let r = CellPath { subs: Vec::new(), metric: j };
                    assert(r@.subs =~= Seq::<int>::empty());
                    assert(want =~= Seq::<Seq<char>>::empty());
                    return Some(r);
                }
                assert forall|p: MetricPath| #[trigger] locates(*s, want, instance@, p) implies path_head(p) >= j + 1 by {
                    lemma_head_valid(*s, p);
                    if path_head(p) == j {
                        if d < fields@.len() {
                            assert(want.len() > 0);
                        }
                    }
                }
            },
            Slot::Sub(sub) => {
                let matched = d < fields.len() && str_is(sub.field.as_str(), fields[d].as_str());
                if matched {
                    match locate_in(&sub.scope, fields, d + 1, instance) {
                        Some(q) => {
                            let mut subs = q.subs;
                            subs.insert(0, j);
                            let r = CellPath { subs, metric: q.metric };
                            assert(r@.subs =~= seq![j as int] + q@.subs);
                            assert(r@ == path_through(j as int, q@));
                            assert((seq![j as int] + q@.subs).drop_first() =~= q@.subs);
                            assert(path_tail(r@) == q@);
                            assert(fields@.subrange(d as int, fields@.len() as int) =~= seq![fields@[d as int]]
                                + fields@.subrange(d + 1, fields@.len() as int));
                            assert(want =~= seq![fields@[d as int]@]
                                + strings_view(fields@.subrange(d + 1, fields@.len() as int)));
                            assert(path_fields(*s, r@) =~= seq![sub.field@] + path_fields(sub.scope, q@));
                            return Some(r);
                        },
                        None => {},
                    }
                }
                assert forall|p: MetricPath| #[trigger] locates(*s, want, instance@, p) implies path_head(p) >= j + 1 by {
                    lemma_head_valid(*s, p);
                    if path_head(p) == j {
                        let t = path_tail(p);
                        assert(path_fields(*s, p) == seq![sub.field@] + path_fields(sub.scope, t));
                        assert(path_fields(*s, p)[0] == sub.field@);
                        if d < fields@.len() {
                            assert(want[0] == fields@[d as int]@);
                            if matched {
                                assert(fields@.subrange(d as int, fields@.len() as int) =~= seq![fields@[d as int]]
                                    + fields@.subrange(d + 1, fields@.len() as int));
                                assert(want =~= seq![fields@[d as int]@]
                                    + strings_view(fields@.subrange(d + 1, fields@.len() as int)));
                                assert(path_fields(sub.scope, t) =~= want.drop_first());
                                assert(want.drop_first() =~= strings_view(fields@.subrange(d + 1, fields@.len() as int)));
                                assert(locates(sub.scope, strings_view(fields@.subrange(d + 1, fields@.len() as int)), instance@, t));
                            }
                        } else {
                            assert(want.len() == 0);
                        }
                    }
                }
            },
            Slot::Opaque(_) => {
                assert forall|p: MetricPath| #[trigger] locates(*s, want, instance@, p) implies path_head(p) >= j + 1 by {
                    lemma_head_valid(*s, p);
                }
            },
        }
        j = j + 1;
    }
    assert forall|p: MetricPath| !#[trigger] locates(*s, want, instance@, p) by {
        if locates(*s, want, instance@, p) {
            lemma_head_valid(*s, p);
        }
    }
    None
}

impl Catalogue {
    /// The place of the metric stored in field `instance` of the scope that
    /// the sub-scope fields `fields` lead to, from the root down.
    pub fn locate(&self, fields: &Vec<String>, instance: &str) -> (r: Option<CellPath>)
        ensures
            r matches Some(p) ==> locates(self.root, strings_view(fields@), instance@, p@),
            r is None ==> forall|p: MetricPath|
                !#[trigger] locates(self.root, strings_view(fields@), instance@, p),
    {
        let r = locate_in(&self.root, fields, 0, instance);
        assert(fields@.subrange(0, fields@.len() as int) =~= fields@);
        r
    }

    /// The number held by the counter or gauge at `p`; `None` for a
    /// histogram or a place that holds no metric.
    pub fn read(&self, p: &CellPath) -> (r: Option<u64>)
        ensures
            valid_path(self.root, p@) ==> r == cell_value(cell_at(self.root, p@)),
            !valid_path(self.root, p@) ==> r is None,
    {
        proof {
            assert(p.subs@.subrange(0, p.subs@.len() as int) =~= p.subs@);
            assert(path_from(p.subs@, 0, p.metric).subs =~= p@.subs);
            assert(path_from(p.subs@, 0, p.metric) == p@);
        }
        match cell_ref(&self.root, &p.subs, 0, p.metric) {
            Some(c) => match c {
                MetricCell::Counter(x) => Some(x.read()),
                MetricCell::Gauge(x) => Some(x.read()),
                MetricCell::DiscreteGauge(x) => Some(x.read()),
                MetricCell::Histogram(_) => None,
            },
            None => None,
        }
    }

    /// The kind of the metric at `p`; `None` for a place that holds no metric.
    pub fn metric_type(&self, p: &CellPath) -> (r: Option<MetricType>)
        ensures
            valid_path(self.root, p@) ==> r == Some(cell_type(cell_at(self.root, p@))),
            !valid_path(self.root, p@) ==> r is None,
    {
        proof {
            assert(p.subs@.subrange(0, p.subs@.len() as int) =~= p.subs@);
            assert(path_from(p.subs@, 0, p.metric).subs =~= p@.subs);
            assert(path_from(p.subs@, 0, p.metric) == p@);
        }
        match cell_ref(&self.root, &p.subs, 0, p.metric) {
            Some(c) => match c {
                MetricCell::Counter(_) => Some(MetricType::Counter),
                MetricCell::Gauge(_) => Some(MetricType::Gauge),
                MetricCell::DiscreteGauge(_) => Some(MetricType::DiscreteGauge),
                MetricCell::Histogram(h) => Some(MetricType::Histogram(h.retention())),
            },
            None => None,
        }
    }

    /// Applies `op` to the metric at `p`. Returns whether `p` holds a metric;
    /// where it holds none nothing changes.
    pub fn update_at(&mut self, p: &CellPath, op: CellOp) -> (r: bool)
        ensures
            r == valid_path(old(self).root, p@),
            final(self).module == old(self).module,
            final(self).prefix == old(self).prefix,
            final(self).separator == old(self).separator,
            r ==> updated_at(old(self).root, final(self).root, p@) && op_result(
                cell_at(old(self).root, p@),
                cell_at(final(self).root, p@),
                op,
            ),
            !r ==> final(self).root == old(self).root,
    {
        proof {
            assert(p.subs@.subrange(0, p.subs@.len() as int) =~= p.subs@);
            assert(path_from(p.subs@, 0, p.metric).subs =~= p@.subs);
            assert(path_from(p.subs@, 0, p.metric) == p@);
        }
        if cell_ref(&self.root, &p.subs, 0, p.metric).is_none() {
            return false;
        }
        apply_at(&mut self.root, &p.subs, 0, p.metric, op);
        true
    }

    /// The samples of the histogram at `p` in the window current at second
    /// `now`, an expired window being dropped first; `None` where `p` holds
    /// no histogram, and then nothing changes.
    pub fn histogram_samples(&mut self, p: &CellPath, now: u64) -> (r: Option<Vec<u64>>)
        ensures
            final(self).module == old(self).module,
            final(self).prefix == old(self).prefix,
            final(self).separator == old(self).separator,
            r is Some <==> valid_path(old(self).root, p@) && cell_at(old(self).root, p@) is Histogram,
            r matches Some(v) ==> {
                &&& updated_at(old(self).root, final(self).root, p@)
                &&& cell_at(final(self).root, p@) is Histogram
                &&& cell_at(final(self).root, p@)->Histogram_0@ == after_expiry_check(
                    cell_at(old(self).root, p@)->Histogram_0@,
                    now,
                )
                &&& v@.to_multiset() == cell_at(final(self).root, p@)->Histogram_0@.samples
            },
            r is None ==> final(self).root == old(self).root,
    {
        proof {
            assert(p.subs@.subrange(0, p.subs@.len() as int) =~= p.subs@);
            assert(path_from(p.subs@, 0, p.metric).subs =~= p@.subs);
            assert(path_from(p.subs@, 0, p.metric) == p@);
        }
        match cell_ref(&self.root, &p.subs, 0, p.metric) {
            Some(c) => match c {
                MetricCell::Histogram(_) => {},
                _ => {
                    return None;
                },
            },
            None => {
                return None;
            },
        }
        Some(samples_at(&mut self.root, &p.subs, 0, p.metric, now))
    }
}

} // verus!
