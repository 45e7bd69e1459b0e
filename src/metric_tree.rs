use crate::ast::{opt_view, Attributes, SchemaError, Struct};
use crate::metric_scope::{field_refused, refusal_of, MetricScope, MetricType, ScopeField};
use crate::metrics::{Counter, DiscreteGauge, Gauge, Histogram, HistogramView};
use crate::registry::{
    catalogue_key, key_in, path_tail, valid_path, Catalogue, MetricCell, MetricPath, MetricSlot,
    ScopeInstance, Slot, SubScope,
};
use crate::text::{snake_case, snake_case_of, str_is};
use vstd::multiset::Multiset;
use vstd::prelude::*;

verus! {

/// The separator used where the root gives none.
pub open spec fn default_separator() -> Seq<char> {
    seq!['.']
}

/// The root after a declaration is submitted to a context whose root is
/// `prev`: a root declaration becomes the root where there is none yet, and
/// is refused, with the name of the root already there, where there is one.
pub open spec fn root_after(prev: Option<Seq<char>>, s: Struct) -> Result<Option<Seq<char>>, Seq<char>> {
    if s.attributes.is_root() {
        match prev {
            Some(r) => Err(r),
            None => Ok(Some(s.ident@)),
        }
    } else {
        Ok(prev)
    }
}

/// Of two root declarations submitted one after the other to a context
/// without a root, the first becomes the root and the second is refused with
/// the first one's name; in the other order, the other one is named.
pub proof fn lemma_first_root_wins(t: MetricTree, a: Struct, b: Struct)
    requires
        t.root() is None,
        a.attributes.is_root(),
        b.attributes.is_root(),
    ensures
        root_after(t.root(), a) == Ok::<Option<Seq<char>>, Seq<char>>(Some(a.ident@)),
        root_after(root_after(t.root(), a)->Ok_0, b) == Err::<Option<Seq<char>>, Seq<char>>(a.ident@),
        root_after(root_after(t.root(), b)->Ok_0, a) == Err::<Option<Seq<char>>, Seq<char>>(b.ident@),
{
}

/// The names of the scopes that the fields of `sc` hold.
pub open spec fn scope_refs(sc: MetricScope) -> Set<Seq<char>> {
    Set::new(
        |n: Seq<char>|
            exists|k: int|
                0 <= k < sc.fields@.len() && #[trigger] sc.fields@[k] is Sub && sc.fields@[k]->Sub_1.ident@
                    == n,
    )
}

/// Whether `c` is the fresh storage of a metric of kind `t`.
pub open spec fn fresh_cell(c: MetricCell, t: MetricType) -> bool {
    match t {
        MetricType::Counter => c is Counter && c->Counter_0@ == 0,
        MetricType::Gauge => c is Gauge && c->Gauge_0@ == 0,
        MetricType::DiscreteGauge => c is DiscreteGauge && c->DiscreteGauge_0@ == 0,
        MetricType::Histogram(r) => c is Histogram && c->Histogram_0@ == (HistogramView {
            retention: r,
            started: 0,
            samples: Multiset::empty(),
        }),
    }
}

/// Whether `slot` is the fresh storage of field `sf`; a sub-scope slot holds
/// an instance of the scope that the field names.
pub open spec fn slot_from(sf: ScopeField, slot: Slot) -> bool {
    match sf {
        ScopeField::Metric(m) => {
            &&& slot is Metric
            &&& slot->Metric_0.key@ == m.key@
            &&& slot->Metric_0.instance@ == m.instance@
            &&& slot->Metric_0.name@ == m.name@
            &&& slot->Metric_0.hidden == m.hidden
            &&& fresh_cell(slot->Metric_0.cell, m.metric_type)
        },
        ScopeField::Sub(field, sm) => {
            &&& slot is Sub
            &&& slot->Sub_0.field@ == field@
            &&& slot->Sub_0.hidden == sm.hidden
            &&& slot->Sub_0.scope.name@ == sm.ident@
        },
        ScopeField::Other(name, _) => slot is Opaque && slot->Opaque_0@ == name@,
    }
}

/// The names of the scopes held by the first `m` fields of `sc`.
pub open spec fn scope_refs_upto(sc: MetricScope, m: int) -> Set<Seq<char>> {
    Set::new(
        |n: Seq<char>|
            exists|k: int|
                0 <= k < m && k < sc.fields@.len() && #[trigger] sc.fields@[k] is Sub
                    && sc.fields@[k]->Sub_1.ident@ == n,
    )
}

/// Whether `inst`, and every instance below it down to `fuel` levels, is
/// the fresh storage of the scope recorded under its name.
pub open spec fn instantiates(t: MetricTree, inst: ScopeInstance, fuel: nat) -> bool
    decreases fuel,
{
    match t.scope_of(inst.name@) {
        Some(sc) => {
            &&& inst.slots@.len() == sc.fields@.len()
            &&& forall|k: int| 0 <= k < sc.fields@.len() ==> slot_from(sc.fields@[k], #[trigger] inst.slots@[k])
            &&& forall|k: int|
                0 <= k < sc.fields@.len() && #[trigger] inst.slots@[k] is Sub ==> fuel > 0
                    && instantiates(t, inst.slots@[k]->Sub_0.scope, (fuel - 1) as nat)
        },
        None => false,
    }
}

fn fresh_cell_of(t: MetricType) -> (c: MetricCell)
    ensures
        fresh_cell(c, t),
{
    match t {
        MetricType::Counter => MetricCell::Counter(Counter::new()),
        MetricType::Gauge => MetricCell::Gauge(Gauge::new()),
        MetricType::DiscreteGauge => MetricCell::DiscreteGauge(DiscreteGauge::new()),
        MetricType::Histogram(r) => MetricCell::Histogram(Histogram::new(r)),
    }
}

/// The context in which declarations of scopes accumulate until they form
/// one tree below a root.
pub struct MetricTree {
    scopes: Vec<MetricScope>,
    required_scopes: Vec<String>,
    root_scope: Option<String>,
    key_separator: String,
}

impl MetricTree {
    /// No two recorded scopes share a name.
    pub closed spec fn wf(&self) -> bool {
        forall|i: int, j: int|
            0 <= i < self.scopes@.len() && 0 <= j < self.scopes@.len() && i != j
                ==> #[trigger] self.scopes@[i].struct_name@ != #[trigger] self.scopes@[j].struct_name@
    }

    /// The scope recorded under `name`.
    pub closed spec fn scope_of(&self, name: Seq<char>) -> Option<MetricScope> {
        if exists|i: int| 0 <= i < self.scopes@.len() && #[trigger] self.scopes@[i].struct_name@ == name {
            let i = choose|i: int|
                0 <= i < self.scopes@.len() && #[trigger] self.scopes@[i].struct_name@ == name;
            Some(self.scopes@[i])
        } else {
            None
        }
    }

    /// The number of recorded scopes.
    pub closed spec fn scope_count(&self) -> nat {
        self.scopes@.len()
    }

    /// The names of the scopes that some declaration needs: every submitted
    /// scope, and every scope held by a field of one.
    pub closed spec fn required(&self) -> Set<Seq<char>> {
        Set::new(
            |n: Seq<char>|
                exists|i: int|
                    0 <= i < self.required_scopes@.len() && #[trigger] self.required_scopes@[i]@ == n,
        )
    }

    /// The name of the root scope, once one was submitted.
    pub closed spec fn root(&self) -> Option<Seq<char>> {
        opt_view(self.root_scope)
    }

    /// The separator of the keys.
    pub closed spec fn separator(&self) -> Seq<char> {
        self.key_separator@
    }

    /// Whether a root is known and every required scope was submitted.
    pub open spec fn complete(&self) -> bool {
        self.root() is Some && forall|n: Seq<char>| #[trigger]
            self.required().contains(n) ==> self.scope_of(n) is Some
    }

    /// Whether the scope recorded under `name`, and every scope below it
    /// down to `fuel` levels, is recorded; past `fuel` levels no scope may hold
    /// another.
    pub closed spec fn resolvable(&self, name: Seq<char>, fuel: nat) -> bool
        decreases fuel,
    {
        match self.scope_of(name) {
            Some(sc) => forall|k: int|
                0 <= k < sc.fields@.len() && #[trigger] sc.fields@[k] is Sub ==> fuel > 0
                    && self.resolvable(sc.fields@[k]->Sub_1.ident@, (fuel - 1) as nat),
            None => false,
        }
    }

    /// The head of every key: the root's name override followed by the
    /// separator where the override is not empty, nothing where it is empty,
    /// and the root's name in snake case followed by the separator where
    /// there is no override.
    pub open spec fn root_prefix(&self) -> Seq<char> {
        let root = self.root()->Some_0;
        match self.scope_of(root) {
            Some(sc) => match opt_view(sc.name_override) {
                Some(o) => if o.len() > 0 {
                    o + self.separator()
                } else {
                    Seq::empty()
                },
                None => snake_case_of(root) + self.separator(),
            },
            None => Seq::empty(),
        }
    }

    /// The name of the namespace's outermost module: the root's name
    /// override where it is not empty, else the root's name in snake case.
    pub open spec fn root_module(&self) -> Seq<char> {
        let root = self.root()->Some_0;
        match self.scope_of(root) {
            Some(sc) => match opt_view(sc.name_override) {
                Some(o) => if o.len() > 0 {
                    o
                } else {
                    snake_case_of(root)
                },
                None => snake_case_of(root),
            },
            None => snake_case_of(root),
        }
    }

    proof fn lemma_scope_at(&self, i: int)
        requires
            self.wf(),
            0 <= i < self.scopes@.len(),
        ensures
            self.scope_of(self.scopes@[i].struct_name@) == Some(self.scopes@[i]),
    {
        let n = self.scopes@[i].struct_name@;
        assert(exists|i: int| 0 <= i < self.scopes@.len() && #[trigger] self.scopes@[i].struct_name@ == n);
    }

    /// An empty context: no scope, no root, and `.` as separator.
    pub fn new() -> (r: MetricTree)
        ensures
            r.wf(),
            forall|n: Seq<char>| r.scope_of(n) is None,
            r.scope_count() == 0,
            r.required() == Set::<Seq<char>>::empty(),
            r.root() is None,
            r.separator() == default_separator(),
    {
        let r = MetricTree {
            scopes: Vec::new(),
            required_scopes: Vec::new(),
            root_scope: None,
            key_separator: String::from_str("."),
        };
        proof {
            reveal_strlit(".");
            assert(r.required() =~= Set::<Seq<char>>::empty());
        }
        r
    }

    fn scope_index(&self, name: &str) -> (r: Option<usize>)
        requires
            self.wf(),
        ensures
            r matches Some(i) ==> i < self.scopes@.len() && self.scope_of(name@) == Some(
                self.scopes@[i as int],
            ),
            r is None ==> self.scope_of(name@) is None,
    {
        let mut i: usize = 0;
        while i < self.scopes.len()
            invariant
                self.wf(),
                i <= self.scopes@.len(),
                forall|k: int| 0 <= k < i ==> #[trigger] self.scopes@[k].struct_name@ != name@,
            decreases self.scopes@.len() - i,
        {
            if str_is(self.scopes[i].struct_name.as_str(), name) {
                proof {
                    self.lemma_scope_at(i as int);
                }
                return Some(i);
            }
            i = i + 1;
        }
        None
    }

    /// Whether every required scope was submitted and a root is known.
    pub fn is_complete(&self) -> (r: bool)
        requires
            self.wf(),
        ensures
            r == self.complete(),
    {
        if self.root_scope.is_none() {
            return false;
        }
        let mut i: usize = 0;
        while i < self.required_scopes.len()
            invariant
                self.wf(),
                self.root() is Some,
                i <= self.required_scopes@.len(),
                forall|k: int| 0 <= k < i ==> self.scope_of(#[trigger] self.required_scopes@[k]@) is Some,
            decreases self.required_scopes@.len() - i,
        {
            if self.scope_index(self.required_scopes[i].as_str()).is_none() {
                assert(self.required().contains(self.required_scopes@[i as int]@));
                return false;
            }
            i = i + 1;
        }
        assert forall|n: Seq<char>| #[trigger] self.required().contains(n) implies self.scope_of(n) is Some by {
            let k = choose|k: int|
                0 <= k < self.required_scopes@.len() && #[trigger] self.required_scopes@[k]@ == n;
            assert(self.scope_of(self.required_scopes@[k]@) is Some);
        }
        true
    }

    fn instantiate(&self, name: &str, fuel: usize) -> (r: Result<ScopeInstance, SchemaError>)
        requires
            self.wf(),
        ensures
            r is Ok <==> self.resolvable(name@, fuel as nat),
            r matches Ok(inst) ==> inst.name@ == name@ && instantiates(*self, inst, fuel as nat),
        decreases fuel,
    {
        let i = match self.scope_index(name) {
            Some(i) => i,
            None => {
                return Err(SchemaError::Incomplete);
            },
        };
        let sc = &self.scopes[i];
        let mut slots: Vec<Slot> = Vec::new();
        let mut k: usize = 0;
        while k < sc.fields.len()
            invariant
                self.wf(),
                self.scope_of(name@) == Some(*sc),
                k <= sc.fields@.len(),
                slots@.len() == k,
                forall|q: int| 0 <= q < k ==> slot_from(sc.fields@[q], #[trigger] slots@[q]),
                forall|q: int|
                    0 <= q < k && #[trigger] slots@[q] is Sub ==> fuel > 0 && instantiates(
                        *self,
                        slots@[q]->Sub_0.scope,
                        (fuel - 1) as nat,
                    ),
                forall|q: int|
                    0 <= q < k && #[trigger] sc.fields@[q] is Sub ==> fuel > 0 && self.resolvable(
                        sc.fields@[q]->Sub_1.ident@,
                        (fuel - 1) as nat,
                    ),
            decreases sc.fields@.len() - k,
        {
            match &sc.fields[k] {
                ScopeField::Metric(m) => {
                    slots.push(
                        Slot::Metric(
                            MetricSlot {
                                key: m.key.clone(),
                                instance: m.instance.clone(),
                                name: m.name.clone(),
                                hidden: m.hidden,
                                cell: fresh_cell_of(m.metric_type),
                            },
                        ),
                    );
                },
                ScopeField::Sub(field, sm) => {
                    if fuel == 0 {
                        assert(sc.fields@[k as int] is Sub);
                        return Err(SchemaError::Cyclic);
                    }
                    match self.instantiate(sm.ident.as_str(), fuel - 1) {
                        Ok(child) => {
                            slots.push(
                                Slot::Sub(
                                    SubScope { field: field.clone(), hidden: sm.hidden, scope: child },
                                ),
                            );
                        },
                        Err(e) => {
                            assert(sc.fields@[k as int] is Sub);
                            return Err(e);
                        },
                    }
                },
                ScopeField::Other(n, _) => {
                    slots.push(Slot::Opaque(n.clone()));
                },
            }
            k = k + 1;
        }
        let inst = ScopeInstance { name: sc.struct_name.clone(), slots };
        assert(inst.slots@ == slots@);
        Ok(inst)
    }

    /// Submits the declaration of one scope.
    ///
    /// A second root is refused with the name of the first. So is a
    /// declaration with a field that cannot be classified; either way the
    /// context is left as it was. Otherwise the classified scope is recorded
    /// under its name, in place of an earlier one of that name; it and every
    /// scope its fields hold become required; and a root declaration sets the
    /// root and the separator.
    pub fn parse_struct(&mut self, input: Struct) -> (r: Result<(), SchemaError>)
        requires
            old(self).wf(),
        ensures
            final(self).wf(),
            root_after(old(self).root(), input) matches Err(first) ==> r is Err && r->Err_0 is DuplicateRoot
                && r->Err_0->DuplicateRoot_0@ == first,
            r is Ok <==> root_after(old(self).root(), input) is Ok && forall|k: int|
                0 <= k < input.fields@.len() ==> !field_refused(#[trigger] input.fields@[k]),
            r is Err ==> *final(self) == *old(self),
            root_after(old(self).root(), input) is Ok ==> (r matches Err(e) ==> exists|k: int|
                0 <= k < input.fields@.len() && field_refused(#[trigger] input.fields@[k])
                    && refusal_of(input.fields@[k], e) && forall|j: int|
                    0 <= j < k ==> !field_refused(#[trigger] input.fields@[j])),
            r is Ok ==> {
                &&& final(self).root() == root_after(old(self).root(), input)->Ok_0
                &&& final(self).separator() == if input.attributes.is_root() {
                    match input.attributes.separator_view() {
                        Some(sep) => sep,
                        None => default_separator(),
                    }
                } else {
                    old(self).separator()
                }
                &&& final(self).scope_of(input.ident@) is Some
                &&& final(self).scope_of(input.ident@)->Some_0.built_from(input)
                &&& forall|n: Seq<char>|
                    n != input.ident@ ==> #[trigger] final(self).scope_of(n) == old(self).scope_of(n)
                &&& final(self).required() == old(self).required().insert(input.ident@).union(
                    scope_refs(final(self).scope_of(input.ident@)->Some_0),
                )
            },
    {
        if let Attributes::Root(_) = &input.attributes {
            match &self.root_scope {
                Some(first) => {
                    return Err(SchemaError::DuplicateRoot(first.clone()));
                },
                None => {},
            }
        }
        let scope = match MetricScope::from_struct(&input) {
            Ok(sc) => sc,
            Err(e) => {
                return Err(e);
            },
        };
        if let Attributes::Root(ra) = &input.attributes {
            self.root_scope = Some(input.ident.clone());
            self.key_separator = match &ra.separator {
                Some(sep) => sep.clone(),
                None => {
                    proof {
                        reveal_strlit(".");
                    }
                    String::from_str(".")
                },
            };
        }
        let ghost base = self.required();
        self.add_required(&scope.struct_name);
        let mut k: usize = 0;
        while k < scope.fields.len()
            invariant
                k <= scope.fields@.len(),
                self.scopes == old(self).scopes,
                self.root_scope == if input.attributes.is_root() {
                    Some(input.ident)
                } else {
                    old(self).root_scope
                },
                self.key_separator@ == if input.attributes.is_root() {
                    match input.attributes.separator_view() {
                        Some(sep) => sep,
                        None => default_separator(),
                    }
                } else {
                    old(self).separator()
                },
                self.required() == base.insert(input.ident@).union(scope_refs_upto(scope, k as int)),
            decreases scope.fields@.len() - k,
        {
            let ghost before = self.required();
            match &scope.fields[k] {
                ScopeField::Sub(_, sm) => {
                    self.add_required(&sm.ident);
                    assert(scope_refs_upto(scope, k + 1) =~= scope_refs_upto(scope, k as int).insert(
                        sm.ident@,
                    ));
                },
                _ => {
                    assert(scope_refs_upto(scope, k + 1) =~= scope_refs_upto(scope, k as int));
                },
            }
            k = k + 1;
            assert(self.required() =~= base.insert(input.ident@).union(scope_refs_upto(scope, k as int)));
        }
        assert(scope_refs_upto(scope, k as int) =~= scope_refs(scope));
        assert(scope.struct_name@ == input.ident@);
        self.store_scope(scope);
        Ok(())
    }

    /// Builds the fresh storage of the closed tree, with the prefix and the
    /// separator of its keys. Refused while the context is not complete, and
    /// where a chain of nested scopes is longer than the number of scopes,
    /// which only a scope that holds itself can give.
    pub fn generate(&self) -> (r: Result<Catalogue, SchemaError>)
        requires
            self.wf(),
        ensures
            !self.complete() ==> r is Err && r->Err_0 is Incomplete,
            r is Ok <==> self.complete() && self.resolvable(self.root()->Some_0, self.scope_count()),
            r matches Ok(c) ==> {
                &&& c.root.name@ == self.root()->Some_0
                &&& instantiates(*self, c.root, self.scope_count())
                &&& c.separator@ == self.separator()
                &&& c.prefix@ == self.root_prefix()
                &&& c.module@ == self.root_module()
            },
    {
        if !self.is_complete() {
            return Err(SchemaError::Incomplete);
        }
        let root_name = match &self.root_scope {
            Some(n) => n,
            None => {
                return Err(SchemaError::Incomplete);
            },
        };
        let root = match self.instantiate(root_name.as_str(), self.scopes.len()) {
            Ok(inst) => inst,
            Err(e) => {
                return Err(e);
            },
        };
        let i = match self.scope_index(root_name.as_str()) {
            Some(i) => i,
            None => {
                return Err(SchemaError::Incomplete);
            },
        };
        let snake = snake_case(root_name.as_str());
        let (prefix, module) = match &self.scopes[i].name_override {
            Some(o) => {
                if o.as_str().unicode_len() > 0 {
                    let mut p = o.clone();
                    p.append(self.key_separator.as_str());
                    (p, o.clone())
                } else {
                    (String::new(), snake)
                }
            },
            None => {
                let mut p = snake.clone();
                p.append(self.key_separator.as_str());
                (p, snake)
            },
        };
        Ok(Catalogue { module, prefix, separator: self.key_separator.clone(), root })
    }

    fn add_required(&mut self, name: &String)
        ensures
            final(self).scopes == old(self).scopes,
            final(self).root_scope == old(self).root_scope,
            final(self).key_separator == old(self).key_separator,
            final(self).required() == old(self).required().insert(name@),
    {
        let mut i: usize = 0;
        while i < self.required_scopes.len()
            invariant
                i <= self.required_scopes@.len(),
                forall|k: int| 0 <= k < i ==> #[trigger] self.required_scopes@[k]@ != name@,
            decreases self.required_scopes@.len() - i,
        {
            if str_is(self.required_scopes[i].as_str(), name.as_str()) {
                assert(self.required() =~= self.required().insert(name@));
                return;
            }
            i = i + 1;
        }
        let ghost old_self = *self;
        self.required_scopes.push(name.clone());
        proof {
            assert forall|n: Seq<char>| #[trigger]
                self.required().contains(n) == old_self.required().insert(name@).contains(n) by {
                if old_self.required().contains(n) {
                    let k = choose|k: int|
                        0 <= k < old_self.required_scopes@.len()
                            && #[trigger] old_self.required_scopes@[k]@ == n;
                    assert(self.required_scopes@[k] == old_self.required_scopes@[k]);
                }
                if n == name@ {
                    assert(self.required_scopes@[old_self.required_scopes@.len() as int]@ == n);
                }
                if self.required().contains(n) {
                    let k = choose|k: int|
                        0 <= k < self.required_scopes@.len() && #[trigger] self.required_scopes@[k]@ == n;
                    if k < old_self.required_scopes@.len() {
                        assert(old_self.required_scopes@[k]@ == n);
                    }
                }
            }
            assert(self.required() =~= old_self.required().insert(name@));
        }
    }

    fn store_scope(&mut self, scope: MetricScope)
        requires
            old(self).wf(),
        ensures
            final(self).wf(),
            final(self).scope_of(scope.struct_name@) == Some(scope),
            forall|n: Seq<char>| n != scope.struct_name@ ==> #[trigger] final(self).scope_of(n) == old(self).scope_of(n),
            final(self).required_scopes == old(self).required_scopes,
            final(self).root_scope == old(self).root_scope,
            final(self).key_separator == old(self).key_separator,
    {
        let ghost old_self = *self;
        let mut i: usize = 0;
        while i < self.scopes.len()
            invariant
                i <= self.scopes@.len(),
                *self == old_self,
                *old(self) == old_self,
                self.wf(),
                forall|k: int| 0 <= k < i ==> #[trigger] self.scopes@[k].struct_name@ != scope.struct_name@,
            decreases self.scopes@.len() - i,
        {
            if str_is(self.scopes[i].struct_name.as_str(), scope.struct_name.as_str()) {
                self.scopes[i] = scope;
                proof {
                    assert(self.scopes@ == old_self.scopes@.update(i as int, scope));
                    assert(self.required_scopes == old_self.required_scopes);
                    self.lemma_scope_at(i as int);
                    assert forall|n: Seq<char>| n != self.scopes@[i as int].struct_name@ implies #[trigger] self.scope_of(n) == old_self.scope_of(n) by {
                        if old_self.scope_of(n) is Some {
                            let k = choose|k: int|
                                0 <= k < old_self.scopes@.len() && #[trigger] old_self.scopes@[k].struct_name@ == n;
                            old_self.lemma_scope_at(k);
                            self.lemma_scope_at(k);
                        }
                        if self.scope_of(n) is Some {
                            let k = choose|k: int|
                                0 <= k < self.scopes@.len() && #[trigger] self.scopes@[k].struct_name@ == n;
                            old_self.lemma_scope_at(k);
                            self.lemma_scope_at(k);
                        }
                    }
                }
                return;
            }
            i = i + 1;
        }
        self.scopes.push(scope);
        proof {
            let last = old_self.scopes@.len() as int;
            assert(self.wf());
            self.lemma_scope_at(last);
            assert forall|n: Seq<char>| n != scope.struct_name@ implies #[trigger] self.scope_of(n) == old_self.scope_of(n) by {
                if old_self.scope_of(n) is Some {
                    let k = choose|k: int|
                        0 <= k < old_self.scopes@.len() && #[trigger] old_self.scopes@[k].struct_name@ == n;
                    old_self.lemma_scope_at(k);
                    self.lemma_scope_at(k);
                }
                if self.scope_of(n) is Some {
                    let k = choose|k: int|
                        0 <= k < self.scopes@.len() && #[trigger] self.scopes@[k].struct_name@ == n;
                    old_self.lemma_scope_at(k);
                    self.lemma_scope_at(k);
                }
            }
        }
    }
}

/// The key of the metric at `p` below the scope recorded under `name`, read
/// from the declarations: the names of the sub-scope fields on the way, each
/// followed by `sep`, then the published name of the metric field.
pub open spec fn declared_key(t: MetricTree, name: Seq<char>, sep: Seq<char>, p: MetricPath) -> Seq<char>
    decreases p.subs.len(),
{
    let sc = t.scope_of(name)->Some_0;
    if p.subs.len() == 0 {
        sc.fields@[p.metric]->Metric_0.name@
    } else {
        sc.fields@[p.subs[0]]->Sub_0@ + sep + declared_key(
            t,
            sc.fields@[p.subs[0]]->Sub_1.ident@,
            sep,
            path_tail(p),
        )
    }
}

proof fn lemma_declared_key(t: MetricTree, inst: ScopeInstance, fuel: nat, sep: Seq<char>, p: MetricPath)
    requires
        instantiates(t, inst, fuel),
        valid_path(inst, p),
    ensures
        key_in(inst, sep, p) == declared_key(t, inst.name@, sep, p),
    decreases p.subs.len(),
{
    let sc = t.scope_of(inst.name@)->Some_0;
    if p.subs.len() == 0 {
        assert(slot_from(sc.fields@[p.metric], inst.slots@[p.metric]));
    } else {
        let j = p.subs[0];
        assert(slot_from(sc.fields@[j], inst.slots@[j]));
        assert(inst.slots@[j] is Sub);
        lemma_declared_key(t, inst.slots@[j]->Sub_0.scope, (fuel - 1) as nat, sep, path_tail(p));
    }
}

/// The full key of every metric of a generated catalogue is the root prefix
/// followed by the key read from the declarations, from the root down.
pub proof fn lemma_generated_key(t: MetricTree, c: Catalogue, p: MetricPath)
    requires
        t.root() is Some,
        c.root.name@ == t.root()->Some_0,
        instantiates(t, c.root, t.scope_count()),
        c.separator@ == t.separator(),
        c.prefix@ == t.root_prefix(),
        valid_path(c.root, p),
    ensures
        catalogue_key(c, p) == t.root_prefix() + declared_key(t, t.root()->Some_0, t.separator(), p),
{
    lemma_declared_key(t, c.root, t.scope_count(), c.separator@, p);
}

} // verus!
