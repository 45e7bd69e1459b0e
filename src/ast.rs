use crate::text::str_is;
use vstd::prelude::*;

verus! {

/// The view of an optional string.
pub open spec fn opt_view(o: Option<String>) -> Option<Seq<char>> {
    match o {
        Some(s) => Some(s@),
        None => None,
    }
}

/// Attributes that mark the root scope of a catalogue.
pub struct RootAttributes {
    /// The separator placed between the segments of every key of the tree.
    pub separator: Option<String>,
    /// The name that replaces the root's own name at the head of every key.
    pub name_override: Option<String>,
}

/// Attributes of an ordinary scope or of a field.
pub struct StructAttributes {
    /// A hidden item has no key and cannot be found by name.
    pub hidden: bool,
    /// The name under which the item is published, in place of its own.
    pub name_override: Option<String>,
}

/// The attributes attached to a scope or to a field.
pub enum Attributes {
    Root(RootAttributes),
    Struct(StructAttributes),
}

/// One item of an attribute list, as written in a declaration.
pub enum AttrItem {
    /// A bare word, such as `skip` or `root`.
    Word(String),
    /// `key = value`; the value is `None` where it is not a string literal.
    Assign(String, Option<String>),
    /// A string literal: the name under which the item is published.
    Text(String),
}

/// An error in the declarations of a catalogue.
#[derive(Debug, PartialEq, Eq)]
pub enum SchemaError {
    /// A second root was declared; it holds the name of the first one.
    DuplicateRoot(String),
    /// A separator was given to an item that is not, or not yet, a root.
    SeparatorOnNonRoot,
    /// A separator was given as something other than a string.
    SeparatorNotString,
    /// A visible field that has no name to publish; it holds the field's name.
    NoMetricName(String),
    /// A field whose type is neither a metric nor a scope; it holds the field's name.
    InvalidFieldType(String),
    /// A histogram whose retention is not a number of seconds; it holds the field's name.
    InvalidRetention(String),
    /// The declarations do not yet form a closed tree below a root.
    Incomplete,
    /// A chain of nested scopes longer than the number of declared scopes,
    /// which only a scope that contains itself can give.
    Cyclic,
}

pub open spec fn skip_word() -> Seq<char> {
    seq!['s', 'k', 'i', 'p']
}

pub open spec fn root_word() -> Seq<char> {
    seq!['r', 'o', 'o', 't']
}

pub open spec fn separator_word() -> Seq<char> {
    seq!['s', 'e', 'p', 'a', 'r', 'a', 't', 'o', 'r']
}

/// The attributes read from a list so far: whether a root marker was seen,
/// with the root's separator and name, and whether the item is hidden, with
/// its published name.
pub ghost struct AttrState {
    pub root: bool,
    pub separator: Option<Seq<char>>,
    pub root_name: Option<Seq<char>>,
    pub hidden: bool,
    pub name: Option<Seq<char>>,
}

pub open spec fn attr_start() -> AttrState {
    AttrState { root: false, separator: None, root_name: None, hidden: false, name: None }
}

/// The state after one more item. A word or an assignment whose key is
/// `skip` hides the item, one whose key is `root` makes it a root; a
/// `separator` assignment needs a root already and a string value; a string
/// literal names the item, and the root too once it is one.
pub open spec fn attr_step(st: AttrState, item: AttrItem) -> Result<AttrState, AttrRefusal> {
    match item {
        AttrItem::Word(w) => Ok(
            AttrState {
                hidden: st.hidden || w@ == skip_word(),
                root: st.root || w@ == root_word(),
                ..st
            },
        ),
        AttrItem::Assign(k, v) => {
            let marked = AttrState {
                hidden: st.hidden || k@ == skip_word(),
                root: st.root || k@ == root_word(),
                ..st
            };
            if k@ == separator_word() {
                match v {
                    Some(s) => if marked.root {
                        Ok(AttrState { separator: Some(s@), ..marked })
                    } else {
                        Err(AttrRefusal::BeforeRoot)
                    },
                    None => Err(AttrRefusal::NotString),
                }
            } else {
                Ok(marked)
            }
        },
        AttrItem::Text(t) => Ok(
            AttrState {
                name: Some(t@),
                root_name: if st.root {
                    Some(t@)
                } else {
                    st.root_name
                },
                ..st
            },
        ),
    }
}

/// Why an attribute list is refused.
pub ghost enum AttrRefusal {
    /// A separator before the root marker, or without one.
    BeforeRoot,
    /// A separator that is not a string.
    NotString,
}

/// The state after the first `n` items, or the refusal of the first item
/// that is refused.
pub open spec fn attr_fold(items: Seq<AttrItem>, n: int) -> Result<AttrState, AttrRefusal>
    decreases n,
{
    if n <= 0 {
        Ok(attr_start())
    } else {
        match attr_fold(items, n - 1) {
            Ok(st) => attr_step(st, items[n - 1]),
            Err(e) => Err(e),
        }
    }
}

/// Once an item is refused, the whole list is, for the same reason.
proof fn lemma_fold_refused(items: Seq<AttrItem>, j: int, n: int)
    requires
        j <= n,
        attr_fold(items, j) is Err,
    ensures
        attr_fold(items, n) == attr_fold(items, j),
    decreases n - j,
{
    if j < n {
        lemma_fold_refused(items, j, n - 1);
    }
}

impl Attributes {
    /// Whether these are the attributes of a root.
    pub open spec fn is_root(&self) -> bool {
        self is Root
    }

    /// The published name given by these attributes, if any.
    pub open spec fn name_view(&self) -> Option<Seq<char>> {
        match self {
            Attributes::Root(r) => opt_view(r.name_override),
            Attributes::Struct(s) => opt_view(s.name_override),
        }
    }

    /// The separator given by these attributes, if any.
    pub open spec fn separator_view(&self) -> Option<Seq<char>> {
        match self {
            Attributes::Root(r) => opt_view(r.separator),
            Attributes::Struct(_) => None,
        }
    }

    pub open spec fn hidden_view(&self) -> bool {
        match self {
            Attributes::Root(_) => false,
            Attributes::Struct(s) => s.hidden,
        }
    }

    /// Whether these attributes are the ones that a read of the list ending
    /// in state `st` gives.
    pub open spec fn built_from(&self, st: AttrState) -> bool {
        if st.root {
            self is Root && self.separator_view() == st.separator && self.name_view()
                == st.root_name
        } else {
            self is Struct && self.hidden_view() == st.hidden && self.name_view() == st.name
        }
    }

    /// Whether the item is hidden. A root is never hidden.
    pub fn is_hidden(&self) -> (r: bool)
        ensures
            r == self.hidden_view(),
    {
        match self {
            Attributes::Struct(s) => s.hidden,
            Attributes::Root(_) => false,
        }
    }

    /// Reads an attribute list. The list is refused where it gives a
    /// separator that is not a string, or gives one before the root marker.
    pub fn from_items(items: &Vec<AttrItem>) -> (r: Result<Attributes, SchemaError>)
        ensures
            match attr_fold(items@, items@.len() as int) {
                Ok(st) => r is Ok && r->Ok_0.built_from(st),
                Err(AttrRefusal::BeforeRoot) => r == Err::<Attributes, SchemaError>(SchemaError::SeparatorOnNonRoot),
                Err(AttrRefusal::NotString) => r == Err::<Attributes, SchemaError>(SchemaError::SeparatorNotString),
            },
    {
        let mut root = false;
        let mut separator: Option<String> = None;
        let mut root_name: Option<String> = None;
        let mut hidden = false;
        let mut name: Option<String> = None;
        let mut i: usize = 0;
        while i < items.len()
            invariant
                0 <= i <= items@.len(),
                attr_fold(items@, i as int) == Ok::<AttrState, AttrRefusal>(
                    AttrState {
                        root,
                        separator: opt_view(separator),
                        root_name: opt_view(root_name),
                        hidden,
                        name: opt_view(name),
                    },
                ),
            decreases items@.len() - i,
        {
            proof {
                reveal_strlit("skip");
                reveal_strlit("root");
                reveal_strlit("separator");
                assert("skip"@ =~= skip_word());
                assert("root"@ =~= root_word());
                assert("separator"@ =~= separator_word());
            }
            let ghost st = attr_fold(items@, i as int)->Ok_0;
            assert(attr_fold(items@, i + 1) == attr_step(st, items@[i as int]));
            match &items[i] {
                AttrItem::Word(w) => {
                    hidden = hidden || str_is(w.as_str(), "skip");
                    root = root || str_is(w.as_str(), "root");
                },
                AttrItem::Assign(k, v) => {
                    hidden = hidden || str_is(k.as_str(), "skip");
                    root = root || str_is(k.as_str(), "root");
                    if str_is(k.as_str(), "separator") {
                        match v {
                            Some(s) => {
                                if !root {
                                    proof {
                                        lemma_fold_refused(items@, i + 1, items@.len() as int);
                                    }
                                    return Err(SchemaError::SeparatorOnNonRoot);
                                }
                                separator = Some(s.clone());
                            },
                            None => {
                                proof {
                                    lemma_fold_refused(items@, i + 1, items@.len() as int);
                                }
                                return Err(SchemaError::SeparatorNotString);
                            },
                        }
                    }
                },
                AttrItem::Text(t) => {
                    name = Some(t.clone());
                    if root {
                        root_name = Some(t.clone());
                    }
                },
            }
            i = i + 1;
        }
        if root {
            Ok(Attributes::Root(RootAttributes { separator, name_override: root_name }))
        } else {
            Ok(Attributes::Struct(StructAttributes { hidden, name_override: name }))
        }
    }
}

/// The path of a type as written: its segments joined by `::`, and the
/// generic arguments of its last segment, if any.
pub struct TypePath {
    pub path: String,
    pub args: Option<String>,
}

impl TypePath {
    /// The full path: the arguments, where there are any, follow the path
    /// after a `::`.
    pub open spec fn full_view(&self) -> Seq<char> {
        match self.args {
            Some(a) => self.path@ + seq![':', ':'] + a@,
            None => self.path@,
        }
    }

    /// The full path; see `full_view`.
    pub fn full_path(&self) -> (r: String)
        ensures
            r@ == self.full_view(),
    {
        match &self.args {
            Some(args) => {
                let mut s = self.path.clone();
                proof {
                    reveal_strlit("::");
                }
                s.append("::");
                s.append(args.as_str());
                s
            },
            None => self.path.clone(),
        }
    }
}

/// A field of a declared scope.
pub struct Field {
    /// The field's own name.
    pub ident: String,
    pub ty: TypePath,
    pub attributes: Attributes,
}

impl Field {
    /// The name under which a visible field is published: the name given in
    /// its attributes, else its own. `None` for a hidden field, and for a field
    /// that carries root attributes without a name.
    pub open spec fn metric_name(&self) -> Option<Seq<char>> {
        match self.attributes {
            Attributes::Root(r) => opt_view(r.name_override),
            Attributes::Struct(s) => if s.hidden {
                None
            } else {
                match s.name_override {
                    Some(n) => Some(n@),
                    None => Some(self.ident@),
                }
            },
        }
    }

    /// The name under which the field is published; see `metric_name`.
    pub fn get_metric(&self) -> (r: Option<String>)
        ensures
            opt_view(r) == self.metric_name(),
    {
        match &self.attributes {
            Attributes::Root(root) => match &root.name_override {
                Some(n) => Some(n.clone()),
                None => None,
            },
            Attributes::Struct(s) => {
                if s.hidden {
                    return None;
                }
                match &s.name_override {
                    Some(n) => Some(n.clone()),
                    None => Some(self.ident.clone()),
                }
            },
        }
    }
}

/// The declaration of one scope: its name, fields and attributes.
pub struct Struct {
    pub ident: String,
    pub fields: Vec<Field>,
    pub attributes: Attributes,
}

} // verus!
