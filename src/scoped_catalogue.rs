use crate::registry::{
    cell_at, in_family, key_in, lemma_key_resolves, path_through, path_tail, reachable,
    catalogue_find, catalogue_key, keys_distinct, Catalogue, MetricFamily, MetricPath, MetricSlot,
    ScopeInstance, Slot,
};
use crate::text::str_is;
use vstd::prelude::*;

verus! {

/// Whether `p` leads from `s` through visible sub-scopes to a visible
/// metric, of any kind.
pub open spec fn visible_metric(s: ScopeInstance, p: MetricPath) -> bool
    decreases p.subs.len(),
{
    if p.subs.len() == 0 {
        &&& 0 <= p.metric < s.slots@.len()
        &&& s.slots@[p.metric] is Metric
        &&& !s.slots@[p.metric]->Metric_0.hidden
    } else {
        &&& 0 <= p.subs[0] < s.slots@.len()
        &&& s.slots@[p.subs[0]] is Sub
        &&& !s.slots@[p.subs[0]]->Sub_0.hidden
        &&& visible_metric(s.slots@[p.subs[0]]->Sub_0.scope, path_tail(p))
    }
}

/// The metric slot at `p` below `s`.
pub open spec fn slot_at(s: ScopeInstance, p: MetricPath) -> MetricSlot
    decreases p.subs.len(),
{
    if p.subs.len() == 0 {
        s.slots@[p.metric]->Metric_0
    } else {
        slot_at(s.slots@[p.subs[0]]->Sub_0.scope, path_tail(p))
    }
}

/// The field names of the sub-scopes on the way to `p`.
pub open spec fn path_fields(s: ScopeInstance, p: MetricPath) -> Seq<Seq<char>>
    decreases p.subs.len(),
{
    if p.subs.len() == 0 {
        Seq::empty()
    } else {
        seq![s.slots@[p.subs[0]]->Sub_0.field@] + path_fields(
            s.slots@[p.subs[0]]->Sub_0.scope,
            path_tail(p),
        )
    }
}

pub open spec fn strings_view(v: Seq<String>) -> Seq<Seq<char>> {
    v.map_values(|x: String| x@)
}

/// A constant of the key namespace: the modules it stands in, below the
/// outermost one, its name, and the full key it holds.
pub struct KeyConstant {
    pub module: Vec<String>,
    pub name: String,
    pub value: String,
}

/// The key namespace of a catalogue: the name of its outermost module and
/// one constant per visible metric.
pub struct ScopedCatalogue {
    pub mod_name: String,
    pub keys: Vec<KeyConstant>,
}

/// Whether `e` is the constant of the visible metric at `p` below `s`, for
/// keys headed by `prefix` and modules headed by `module`: its value is the
/// prefix followed by the metric's key, its name the metric's constant name,
/// and its modules the fields of the sub-scopes on the way.
pub open spec fn constant_for(
    s: ScopeInstance,
    sep: Seq<char>,
    prefix: Seq<char>,
    module: Seq<Seq<char>>,
    e: KeyConstant,
    p: MetricPath,
) -> bool {
    &&& visible_metric(s, p)
    &&& e.value@ == prefix + key_in(s, sep, p)
    &&& e.name@ == slot_at(s, p).key@
    &&& strings_view(e.module@) == module + path_fields(s, p)
}

/// Whether `e` is the constant of some visible metric below `s`.
pub open spec fn is_constant_of(
    s: ScopeInstance,
    sep: Seq<char>,
    prefix: Seq<char>,
    module: Seq<Seq<char>>,
    e: KeyConstant,
) -> bool {
    exists|p: MetricPath| #[trigger] constant_for(s, sep, prefix, module, e, p)
}

/// Whether one of `keys` is the constant of the visible metric at `p`.
pub open spec fn has_constant(
    s: ScopeInstance,
    sep: Seq<char>,
    prefix: Seq<char>,
    module: Seq<Seq<char>>,
    keys: Seq<KeyConstant>,
    p: MetricPath,
) -> bool {
    exists|i: int| 0 <= i < keys.len() && #[trigger] constant_for(s, sep, prefix, module, keys[i], p)
}

/// The slot at which path `p` leaves scope `s`.
pub open spec fn path_head(p: MetricPath) -> int {
    if p.subs.len() == 0 {
        p.metric
    } else {
        p.subs[0]
    }
}

fn clone_strings(v: &Vec<String>) -> (r: Vec<String>)
    ensures
        strings_view(r@) == strings_view(v@),
{
    let mut r: Vec<String> = Vec::new();
    let mut i: usize = 0;
    while i < v.len()
        invariant
            i <= v@.len(),
            strings_view(r@) == strings_view(v@.subrange(0, i as int)),
        decreases v@.len() - i,
    {
        let ghost old_r = r@;
        let c = v[i].clone();
        r.push(c);
        assert(v@.subrange(0, i + 1) =~= v@.subrange(0, i as int).push(v@[i as int]));
        assert(strings_view(r@) =~= strings_view(old_r).push(v@[i as int]@));
        assert(strings_view(v@.subrange(0, i + 1)) =~= strings_view(v@.subrange(0, i as int)).push(
            v@[i as int]@,
        ));
        i = i + 1;
    }
    assert(v@.subrange(0, i as int) =~= v@);
    r
}

proof fn lemma_head_visible(s: ScopeInstance, q: MetricPath)
    requires
        visible_metric(s, q),
    ensures
        q.subs.len() == 0 ==> s.slots@[path_head(q)] is Metric && !s.slots@[path_head(q)]->Metric_0.hidden,
        q.subs.len() > 0 ==> s.slots@[path_head(q)] is Sub && !s.slots@[path_head(q)]->Sub_0.hidden,
        0 <= path_head(q) < s.slots@.len(),
{
}

proof fn lemma_keys_kept(
    s: ScopeInstance,
    sep: Seq<char>,
    prefix: Seq<char>,
    m: Seq<Seq<char>>,
    before: Seq<KeyConstant>,
    out: Seq<KeyConstant>,
    j: int,
)
    requires
        before.len() <= out.len(),
        out.subrange(0, before.len() as int) == before,
        forall|i: int| 0 <= i < before.len() ==> is_constant_of(s, sep, prefix, m, #[trigger] before[i]),
        forall|i: int|
            before.len() <= i < out.len() ==> is_constant_of(s, sep, prefix, m, #[trigger] out[i]),
        forall|p: MetricPath|
            #[trigger] visible_metric(s, p) && path_head(p) < j ==> has_constant(s, sep, prefix, m, before, p),
        forall|p: MetricPath|
            #[trigger] visible_metric(s, p) && path_head(p) == j ==> has_constant(s, sep, prefix, m, out, p),
    ensures
        forall|i: int| 0 <= i < out.len() ==> is_constant_of(s, sep, prefix, m, #[trigger] out[i]),
        forall|p: MetricPath|
            #[trigger] visible_metric(s, p) && path_head(p) < j + 1 ==> has_constant(s, sep, prefix, m, out, p),
{
    assert forall|i: int| 0 <= i < out.len() implies is_constant_of(s, sep, prefix, m, #[trigger] out[i]) by {
        if i < before.len() {
            assert(out[i] == out.subrange(0, before.len() as int)[i]);
        }
    }
    assert forall|p: MetricPath|
        #[trigger] visible_metric(s, p) && path_head(p) < j + 1 implies has_constant(s, sep, prefix, m, out, p) by {
        if path_head(p) < j {
            let i = choose|i: int| 0 <= i < before.len() && #[trigger] constant_for(s, sep, prefix, m, before[i], p);
            assert(out[i] == out.subrange(0, before.len() as int)[i]);
            assert(constant_for(s, sep, prefix, m, out[i], p));
        }
    }
}

proof fn lemma_lift_constant(
    s: ScopeInstance,
    sep: Seq<char>,
    prefix: Seq<char>,
    m: Seq<Seq<char>>,
    j: int,
    e: KeyConstant,
    q: MetricPath,
)
    requires
        0 <= j < s.slots@.len(),
        s.slots@[j] is Sub,
        !s.slots@[j]->Sub_0.hidden,
        constant_for(
            s.slots@[j]->Sub_0.scope,
            sep,
            prefix + s.slots@[j]->Sub_0.field@ + sep,
            m + seq![s.slots@[j]->Sub_0.field@],
            e,
            q,
        ),
    ensures
        constant_for(s, sep, prefix, m, e, path_through(j, q)),
{
    let p = path_through(j, q);
    assert((seq![j] + q.subs).drop_first() =~= q.subs);
    assert(path_tail(p) == q);
    assert(e.value@ =~= prefix + key_in(s, sep, p));
    assert(strings_view(e.module@) =~= m + path_fields(s, p));
}

proof fn lemma_path_split(q: MetricPath)
    requires
        q.subs.len() > 0,
    ensures
        path_through(path_head(q), path_tail(q)) == q,
{
    assert(seq![q.subs[0]] + q.subs.drop_first() =~= q.subs);
}

fn collect_keys(s: &ScopeInstance, sep: &str, prefix: &str, module: &Vec<String>) -> (r: Vec<
    KeyConstant,
>)
    ensures
        forall|i: int|
            0 <= i < r@.len() ==> is_constant_of(*s, sep@, prefix@, strings_view(module@), #[trigger] r@[i]),
        forall|p: MetricPath|
            #[trigger] visible_metric(*s, p) ==> has_constant(*s, sep@, prefix@, strings_view(module@), r@, p),
    decreases s,
{
    let ghost m = strings_view(module@);
    let mut out: Vec<KeyConstant> = Vec::new();
    let mut j: usize = 0;
    while j < s.slots.len()
        invariant
            j <= s.slots@.len(),
            m == strings_view(module@),
            forall|i: int|
                0 <= i < out@.len() ==> is_constant_of(*s, sep@, prefix@, m, #[trigger] out@[i]),
            forall|p: MetricPath|
                #[trigger] visible_metric(*s, p) && path_head(p) < j ==> has_constant(*s, sep@, prefix@, m, out@, p),
        decreases s.slots@.len() - j,
    {
        let ghost before = out@;
        match &s.slots[j] {
            Slot::Metric(ms) => {
                if !ms.hidden {
                    let mut value = String::from_str(prefix);
                    value.append(ms.name.as_str());
                    let e = KeyConstant {
                        module: clone_strings(module),
                        name: ms.key.clone(),
                        value,
                    };
                    let ghost p = MetricPath { subs: Seq::empty(), metric: j as int };
                    assert(strings_view(e.module@) =~= m + path_fields(*s, p));
                    assert(constant_for(*s, sep@, prefix@, m, e, p));
                    out.push(e);
                    assert(out@[before.len() as int] == e);
                    assert forall|q: MetricPath|
                        #[trigger] visible_metric(*s, q) && path_head(q) == j implies has_constant(*s, sep@, prefix@, m, out@, q) by {
                        lemma_head_visible(*s, q);
                        assert(q.subs =~= Seq::<int>::empty());
                        assert(q == p);
                    }
                } else {
                    assert forall|q: MetricPath|
                        #[trigger] visible_metric(*s, q) && path_head(q) == j implies has_constant(*s, sep@, prefix@, m, out@, q) by {
                        lemma_head_visible(*s, q);
                    }
                }
            },
            Slot::Sub(sub) => {
                if !sub.hidden {
                    let mut child_prefix = String::from_str(prefix);
                    child_prefix.append(sub.field.as_str());
                    child_prefix.append(sep);
                    let mut child_module = clone_strings(module);
                    child_module.push(sub.field.clone());
                    let ghost cm = strings_view(child_module@);
                    assert(cm =~= m + seq![sub.field@]);
                    let mut child = collect_keys(&sub.scope, sep, child_prefix.as_str(), &child_module);
                    let ghost got = child@;
                    out.append(&mut child);
                    assert forall|i: int| before.len() <= i < out@.len() implies is_constant_of(*s, sep@, prefix@, m, #[trigger] out@[i]) by {
                        let e = got[i - before.len()];
                        assert(out@[i] == e);
                        let q = choose|q: MetricPath| #[trigger]
                            constant_for(sub.scope, sep@, child_prefix@, cm, e, q);
                        lemma_lift_constant(*s, sep@, prefix@, m, j as int, e, q);
                    }
                    assert forall|q: MetricPath|
                        #[trigger] visible_metric(*s, q) && path_head(q) == j implies has_constant(*s, sep@, prefix@, m, out@, q) by {
                        lemma_head_visible(*s, q);
                        let t = path_tail(q);
                        assert(visible_metric(sub.scope, t));
                        let i = choose|i: int| 0 <= i < got.len() && #[trigger] constant_for(sub.scope, sep@, child_prefix@, cm, got[i], t);
                        let e = got[i];
                        assert(out@[before.len() + i] == e);
                        lemma_lift_constant(*s, sep@, prefix@, m, j as int, e, t);
                        lemma_path_split(q);
                    }
                } else {
                    assert forall|q: MetricPath|
                        #[trigger] visible_metric(*s, q) && path_head(q) == j implies has_constant(*s, sep@, prefix@, m, out@, q) by {
                        lemma_head_visible(*s, q);
                    }
                }
            },
            Slot::Opaque(_) => {
                assert forall|q: MetricPath|
                    #[trigger] visible_metric(*s, q) && path_head(q) == j implies has_constant(*s, sep@, prefix@, m, out@, q) by {
                    lemma_head_visible(*s, q);
                }
            },
        }
        proof {
            assert(out@.subrange(0, before.len() as int) =~= before);
            lemma_keys_kept(*s, sep@, prefix@, m, before, out@, j as int);
        }
        j = j + 1;
    }
    assert forall|p: MetricPath| #[trigger] visible_metric(*s, p) implies has_constant(*s, sep@, prefix@, m, out@, p) by {
        lemma_head_visible(*s, p);
    }
    out
}

impl ScopedCatalogue {
    /// The key namespace of the scope instance `scope`: one constant per
    /// visible metric below it, in the order of the fields, sub-scopes depth
    /// first, each key headed by `prefix`.
    pub fn generate_prefix_keys(scope: &ScopeInstance, mod_name: &str, prefix: &str, separator: &str) -> (r: ScopedCatalogue)
        ensures
            r.mod_name@ == mod_name@,
            forall|i: int|
                0 <= i < r.keys@.len() ==> is_constant_of(*scope, separator@, prefix@, Seq::empty(), #[trigger] r.keys@[i]),
            forall|p: MetricPath|
                #[trigger] visible_metric(*scope, p) ==> has_constant(*scope, separator@, prefix@, Seq::empty(), r.keys@, p),
    {
        let top: Vec<String> = Vec::new();
        assert(strings_view(top@) =~= Seq::<Seq<char>>::empty());
        let keys = collect_keys(scope, separator, prefix, &top);
        ScopedCatalogue { mod_name: String::from_str(mod_name), keys }
    }
}

impl Catalogue {
    /// The key namespace: one constant per visible metric, in the order of
    /// the fields, sub-scopes depth first.
    pub fn namespace(&self) -> (r: ScopedCatalogue)
        ensures
            r.mod_name@ == self.module@,
            forall|i: int|
                0 <= i < r.keys@.len() ==> is_constant_of(self.root, self.separator@, self.prefix@, Seq::empty(), #[trigger] r.keys@[i]),
            forall|p: MetricPath|
                #[trigger] visible_metric(self.root, p) ==> has_constant(self.root, self.separator@, self.prefix@, Seq::empty(), r.keys@, p),
    {
        ScopedCatalogue::generate_prefix_keys(
            &self.root,
            self.module.as_str(),
            self.prefix.as_str(),
            self.separator.as_str(),
        )
    }
}

fn strings_equal(a: &Vec<String>, b: &Vec<String>) -> (r: bool)
    ensures
        r == (strings_view(a@) == strings_view(b@)),
{
    if a.len() != b.len() {
        assert(strings_view(a@).len() != strings_view(b@).len());
        return false;
    }
    let mut i: usize = 0;
    while i < a.len()
        invariant
            a@.len() == b@.len(),
            i <= a@.len(),
            forall|k: int| 0 <= k < i ==> #[trigger] a@[k]@ == b@[k]@,
        decreases a@.len() - i,
    {
        if !str_is(a[i].as_str(), b[i].as_str()) {
            assert(strings_view(a@)[i as int] != strings_view(b@)[i as int]);
            return false;
        }
        i = i + 1;
    }
    assert(strings_view(a@) =~= strings_view(b@));
    true
}

impl ScopedCatalogue {
    /// The value of the constant `name` in the modules `module`, below the
    /// outermost one; the first such constant where there are several.
    pub fn get(&self, module: &Vec<String>, name: &str) -> (r: Option<String>)
        ensures
            r matches Some(v) ==> exists|i: int|
                0 <= i < self.keys@.len() && strings_view(#[trigger] self.keys@[i].module@)
                    == strings_view(module@) && self.keys@[i].name@ == name@ && self.keys@[i].value@
                    == v@,
            r is None ==> forall|i: int|
                0 <= i < self.keys@.len() ==> !(strings_view(#[trigger] self.keys@[i].module@)
                    == strings_view(module@) && self.keys@[i].name@ == name@),
    {
        let mut i: usize = 0;
        while i < self.keys.len()
            invariant
                i <= self.keys@.len(),
                forall|k: int|
                    0 <= k < i ==> !(strings_view(#[trigger] self.keys@[k].module@) == strings_view(
                        module@,
                    ) && self.keys@[k].name@ == name@),
            decreases self.keys@.len() - i,
        {
            let e = &self.keys[i];
            if strings_equal(&e.module, module) && str_is(e.name.as_str(), name) {
                return Some(e.value.clone());
            }
            i = i + 1;
        }
        None
    }
}

proof fn lemma_visible_reachable(s: ScopeInstance, p: MetricPath, f: MetricFamily)
    requires
        visible_metric(s, p),
        in_family(cell_at(s, p), f),
    ensures
        reachable(s, p, f),
    decreases p.subs.len(),
{
    if p.subs.len() > 0 {
        lemma_visible_reachable(s.slots@[p.subs[0]]->Sub_0.scope, path_tail(p), f);
    }
}

/// A constant of a catalogue's namespace holds the full key of its metric,
/// and looking that key up in the metric's family finds that very metric,
/// where no other visible metric of the family has the same key.
pub proof fn lemma_constant_resolves(c: Catalogue, e: KeyConstant, p: MetricPath, f: MetricFamily)
    requires
        constant_for(c.root, c.separator@, c.prefix@, Seq::empty(), e, p),
        in_family(cell_at(c.root, p), f),
        keys_distinct(c, f),
    ensures
        e.value@ == catalogue_key(c, p),
        catalogue_find(c, e.value@, f) == Some(p),
{
    lemma_visible_reachable(c.root, p, f);
    lemma_key_resolves(c, p, f);
}

/// Every visible metric has a constant in the namespace of its catalogue,
/// whose value is the metric's full key, and looking that value up in the
/// metric's family finds that very metric, where no other visible metric of
/// the family has the same key.
pub proof fn lemma_visible_metric_resolves(c: Catalogue, ns: ScopedCatalogue, p: MetricPath, f: MetricFamily)
    requires
        forall|q: MetricPath|
            #[trigger] visible_metric(c.root, q) ==> has_constant(c.root, c.separator@, c.prefix@, Seq::empty(), ns.keys@, q),
        visible_metric(c.root, p),
        in_family(cell_at(c.root, p), f),
        keys_distinct(c, f),
    ensures
        exists|i: int|
            0 <= i < ns.keys@.len() && #[trigger] ns.keys@[i].value@ == catalogue_key(c, p)
                && catalogue_find(c, ns.keys@[i].value@, f) == Some(p),
{
    let i = choose|i: int|
        0 <= i < ns.keys@.len() && #[trigger] constant_for(c.root, c.separator@, c.prefix@, Seq::empty(), ns.keys@[i], p);
    lemma_constant_resolves(c, ns.keys@[i], p, f);
}

/// A hidden metric, or a metric below a hidden scope, is the metric of no
/// constant.
pub proof fn lemma_hidden_has_no_constant(c: Catalogue, e: KeyConstant, p: MetricPath)
    requires
        !visible_metric(c.root, p),
    ensures
        !constant_for(c.root, c.separator@, c.prefix@, Seq::empty(), e, p),
{
}

} // verus!
