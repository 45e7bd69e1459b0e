use crate::ast::{opt_view, Field, SchemaError, Struct, TypePath};
use crate::text::{
    ascii_upper, last_segment, parse_retention, path_last_segment, retention_of, str_is,
    to_ascii_upper,
};
use vstd::prelude::*;

verus! {

/// The kind of a metric; a histogram carries its retention in seconds.
#[derive(Clone, Copy, Debug, PartialEq, Eq, Structural)]
pub enum MetricType {
    Counter,
    Gauge,
    DiscreteGauge,
    Histogram(u64),
}

pub open spec fn counter_word() -> Seq<char> {
    seq!['C', 'o', 'u', 'n', 't', 'e', 'r']
}

pub open spec fn gauge_word() -> Seq<char> {
    seq!['G', 'a', 'u', 'g', 'e']
}

pub open spec fn discrete_gauge_word() -> Seq<char> {
    seq!['D', 'i', 's', 'c', 'r', 'e', 't', 'e', 'G', 'a', 'u', 'g', 'e']
}

pub open spec fn histogram_word() -> Seq<char> {
    seq!['H', 'i', 's', 't', 'o', 'g', 'r', 'a', 'm']
}

/// Whether the last segment of a type names a metric kind.
pub open spec fn names_metric(tp: TypePath) -> bool {
    let s = last_segment(tp.path@);
    s == counter_word() || s == gauge_word() || s == discrete_gauge_word() || s
        == histogram_word()
}

/// The metric kind that a type names; `None` for a type that names none, and
/// for a histogram without a retention that can be read.
pub open spec fn metric_type_of(tp: TypePath) -> Option<MetricType> {
    let s = last_segment(tp.path@);
    if s == counter_word() {
        Some(MetricType::Counter)
    } else if s == gauge_word() {
        Some(MetricType::Gauge)
    } else if s == discrete_gauge_word() {
        Some(MetricType::DiscreteGauge)
    } else if s == histogram_word() {
        match tp.args {
            Some(a) => match retention_of(a@) {
                Some(r) => Some(MetricType::Histogram(r)),
                None => None,
            },
            None => None,
        }
    } else {
        None
    }
}

/// Whether a type is a single plain name, which is how a scope is referred to.
pub open spec fn is_plain_ident(tp: TypePath) -> bool {
    tp.args is None && tp.path@.len() > 0 && last_segment(tp.path@) == tp.path@
}

impl MetricType {
    /// The name of the kind, as a type names it.
    pub fn name(&self) -> (r: &'static str)
        ensures
            r@ == match self {
                MetricType::Counter => counter_word(),
                MetricType::Gauge => gauge_word(),
                MetricType::DiscreteGauge => discrete_gauge_word(),
                MetricType::Histogram(_) => histogram_word(),
            },
    {
        proof {
            reveal_strlit("Counter");
            reveal_strlit("Gauge");
            reveal_strlit("DiscreteGauge");
            reveal_strlit("Histogram");
        }
        let r = match self {
            MetricType::Counter => "Counter",
            MetricType::Gauge => "Gauge",
            MetricType::DiscreteGauge => "DiscreteGauge",
            MetricType::Histogram(_) => "Histogram",
        };
        assert(r@ =~= match self {
            MetricType::Counter => counter_word(),
            MetricType::Gauge => gauge_word(),
            MetricType::DiscreteGauge => discrete_gauge_word(),
            MetricType::Histogram(_) => histogram_word(),
        });
        r
    }

    /// Reads the metric kind that a type names; see `metric_type_of`.
    pub fn try_from(tp: &TypePath) -> (r: Option<MetricType>)
        ensures
            r == metric_type_of(*tp),
    {
        let s = path_last_segment(tp.path.as_str());
        proof {
            reveal_strlit("Counter");
            reveal_strlit("Gauge");
            reveal_strlit("DiscreteGauge");
            reveal_strlit("Histogram");
            assert("Counter"@ =~= counter_word());
            assert("Gauge"@ =~= gauge_word());
            assert("DiscreteGauge"@ =~= discrete_gauge_word());
            assert("Histogram"@ =~= histogram_word());
        }
        if str_is(s, "Counter") {
            Some(MetricType::Counter)
        } else if str_is(s, "Gauge") {
            Some(MetricType::Gauge)
        } else if str_is(s, "DiscreteGauge") {
            Some(MetricType::DiscreteGauge)
        } else if str_is(s, "Histogram") {
            match &tp.args {
                Some(a) => match parse_retention(a.as_str()) {
                    Some(r) => Some(MetricType::Histogram(r)),
                    None => None,
                },
                None => None,
            }
        } else {
            None
        }
    }
}

/// A metric field of a scope.
pub struct MetricInstance {
    /// The name of the key's constant: the published name in upper case.
    pub key: String,
    /// The field's own name.
    pub instance: String,
    pub type_path: TypePath,
    /// The published name, the last segment of the metric's key.
    pub name: String,
    pub metric_type: MetricType,
    pub hidden: bool,
}

/// A field of a scope that holds another scope.
pub struct SubMetric {
    /// The name of the scope it holds.
    pub ident: String,
    pub hidden: bool,
}

/// A field of a scope, classified.
pub enum ScopeField {
    Metric(MetricInstance),
    /// A sub-scope, with the name of its field.
    Sub(String, SubMetric),
    /// A hidden field of another type, with its name and its type.
    Other(String, String),
}

/// A declared scope whose fields were classified.
pub struct MetricScope {
    pub struct_name: String,
    pub name_override: Option<String>,
    /// One entry per declared field, in the order of declaration.
    pub fields: Vec<ScopeField>,
}

/// The name under which a field is published: the name in its attributes,
/// else its own.
pub open spec fn published_name(f: Field) -> Seq<char> {
    match f.attributes.name_view() {
        Some(n) => n,
        None => f.ident@,
    }
}

/// Whether a field cannot be classified: a visible field without a name, a
/// histogram without a readable retention, or a visible field whose type is
/// neither a metric nor a plain scope name.
pub open spec fn field_refused(f: Field) -> bool {
    (!f.attributes.hidden_view() && f.metric_name() is None) || (names_metric(f.ty)
        && metric_type_of(f.ty) is None) || (!names_metric(f.ty) && !is_plain_ident(f.ty)
        && !f.attributes.hidden_view())
}

/// Whether `e` is the refusal of a refused field `f`: a missing name comes
/// first, then an unreadable retention, then a type that is neither a metric
/// nor a scope; each names the field.
pub open spec fn refusal_of(f: Field, e: SchemaError) -> bool {
    if !f.attributes.hidden_view() && f.metric_name() is None {
        e is NoMetricName && e->NoMetricName_0@ == f.ident@
    } else if names_metric(f.ty) && metric_type_of(f.ty) is None {
        e is InvalidRetention && e->InvalidRetention_0@ == f.ident@
    } else {
        e is InvalidFieldType && e->InvalidFieldType_0@ == f.ident@
    }
}

/// Whether `sf` is the classification of field `f`: a metric where its type
/// names one, else a sub-scope where its type is a plain name, else an opaque
/// field.
pub open spec fn classified(f: Field, sf: ScopeField) -> bool {
    let hidden = f.attributes.hidden_view();
    if names_metric(f.ty) {
        &&& sf is Metric
        &&& sf->Metric_0.instance@ == f.ident@
        &&& sf->Metric_0.name@ == published_name(f)
        &&& sf->Metric_0.key@ == ascii_upper(published_name(f))
        &&& sf->Metric_0.hidden == hidden
        &&& Some(sf->Metric_0.metric_type) == metric_type_of(f.ty)
        &&& sf->Metric_0.type_path.path@ == f.ty.path@
        &&& opt_view(sf->Metric_0.type_path.args) == opt_view(f.ty.args)
    } else if is_plain_ident(f.ty) {
        &&& sf is Sub
        &&& sf->Sub_0@ == f.ident@
        &&& sf->Sub_1.ident@ == f.ty.path@
        &&& sf->Sub_1.hidden == hidden
    } else {
        &&& sf is Other
        &&& sf->Other_0@ == f.ident@
        &&& sf->Other_1@ == f.ty.full_view()
    }
}

fn clone_type_path(tp: &TypePath) -> (r: TypePath)
    ensures
        r.path@ == tp.path@,
        opt_view(r.args) == opt_view(tp.args),
{
    TypePath {
        path: tp.path.clone(),
        args: match &tp.args {
            Some(a) => Some(a.clone()),
            None => None,
        },
    }
}

/// Classifies one field; see `classified` and `field_refused`.
pub fn classify_field(f: &Field) -> (r: Result<ScopeField, SchemaError>)
    ensures
        r is Ok <==> !field_refused(*f),
        r is Ok ==> classified(*f, r->Ok_0),
        r matches Err(e) ==> refusal_of(*f, e),
{
    let hidden = f.attributes.is_hidden();
    if !hidden {
        match f.get_metric() {
            Some(_) => {},
            None => {
                return Err(SchemaError::NoMetricName(f.ident.clone()));
            },
        }
    }
    let name = match &f.attributes {
        crate::ast::Attributes::Root(a) => match &a.name_override {
            Some(n) => n.clone(),
            None => f.ident.clone(),
        },
        crate::ast::Attributes::Struct(a) => match &a.name_override {
            Some(n) => n.clone(),
            None => f.ident.clone(),
        },
    };
    assert(name@ == published_name(*f));
    let seg = path_last_segment(f.ty.path.as_str());
    proof {
        reveal_strlit("Counter");
        reveal_strlit("Gauge");
        reveal_strlit("DiscreteGauge");
        reveal_strlit("Histogram");
        assert("Counter"@ =~= counter_word());
        assert("Gauge"@ =~= gauge_word());
        assert("DiscreteGauge"@ =~= discrete_gauge_word());
        assert("Histogram"@ =~= histogram_word());
    }
    let is_metric = str_is(seg, "Counter") || str_is(seg, "Gauge") || str_is(seg, "DiscreteGauge")
        || str_is(seg, "Histogram");
    if is_metric {
        match MetricType::try_from(&f.ty) {
            Some(metric_type) => {
                let key = to_ascii_upper(name.as_str());
                Ok(
                    ScopeField::Metric(
                        MetricInstance {
                            key,
                            instance: f.ident.clone(),
                            type_path: clone_type_path(&f.ty),
                            name,
                            metric_type,
                            hidden,
                        },
                    ),
                )
            },
            None => Err(SchemaError::InvalidRetention(f.ident.clone())),
        }
    } else if f.ty.args.is_none() && f.ty.path.as_str().unicode_len() > 0 && str_is(
        seg,
        f.ty.path.as_str(),
    ) {
        Ok(ScopeField::Sub(f.ident.clone(), SubMetric { ident: f.ty.path.clone(), hidden }))
    } else if hidden {
        Ok(ScopeField::Other(f.ident.clone(), f.ty.full_path()))
    } else {
        Err(SchemaError::InvalidFieldType(f.ident.clone()))
    }
}

impl MetricScope {
    /// Whether this scope is the classification of declaration `s`.
    pub open spec fn built_from(&self, s: Struct) -> bool {
        &&& self.struct_name@ == s.ident@
        &&& opt_view(self.name_override) == s.attributes.name_view()
        &&& self.fields@.len() == s.fields@.len()
        &&& forall|k: int|
            0 <= k < s.fields@.len() ==> classified(s.fields@[k], #[trigger] self.fields@[k])
    }

    /// Classifies every field of a declaration. Refused where one of its
    /// fields is.
    pub fn from_struct(s: &Struct) -> (r: Result<MetricScope, SchemaError>)
        ensures
            r is Ok <==> forall|k: int| 0 <= k < s.fields@.len() ==> !field_refused(#[trigger] s.fields@[k]),
            r is Ok ==> r->Ok_0.built_from(*s),
            r matches Err(e) ==> exists|k: int|
                0 <= k < s.fields@.len() && field_refused(#[trigger] s.fields@[k]) && refusal_of(
                    s.fields@[k],
                    e,
                ) && forall|j: int| 0 <= j < k ==> !field_refused(#[trigger] s.fields@[j]),
    {
        let mut fields: Vec<ScopeField> = Vec::new();
        let mut i: usize = 0;
        while i < s.fields.len()
            invariant
                i <= s.fields@.len(),
                fields@.len() == i,
                forall|k: int| 0 <= k < i ==> !field_refused(#[trigger] s.fields@[k]),
                forall|k: int| 0 <= k < i ==> classified(s.fields@[k], #[trigger] fields@[k]),
            decreases s.fields@.len() - i,
        {
            match classify_field(&s.fields[i]) {
                Ok(sf) => {
                    fields.push(sf);
                },
                Err(e) => {
                    assert(field_refused(s.fields@[i as int]));
                    return Err(e);
                },
            }
            i = i + 1;
        }
        let name_override = match &s.attributes {
            crate::ast::Attributes::Root(a) => match &a.name_override {
                Some(n) => Some(n.clone()),
                None => None,
            },
            crate::ast::Attributes::Struct(a) => match &a.name_override {
                Some(n) => Some(n.clone()),
                None => None,
            },
        };
        Ok(MetricScope { struct_name: s.ident.clone(), name_override, fields })
    }
}

} // verus!
