//! Item identity, cached item metadata, and filters over item identity.

use vstd::prelude::*;

verus! {

/// Cached metadata describing an item type: its display label, its internal
/// name, and how many units fit in one slot.
pub struct Detail {
    pub label: String,
    pub name: String,
    pub max_stack_size: u32,
}

impl Clone for Detail {
    fn clone(&self) -> (r: Self)
        ensures
            r == *self,
    {
        Detail {
            label: self.label.clone(),
            name: self.name.clone(),
            max_stack_size: self.max_stack_size,
        }
    }
}

/// One occupied slot: a quantity of a single item type together with its
/// cached metadata.
pub struct DetailStack {
    pub detail: Detail,
    pub size: u32,
}

impl Clone for DetailStack {
    fn clone(&self) -> (r: Self)
        ensures
            r == *self,
    {
        DetailStack { detail: self.detail.clone(), size: self.size }
    }
}

/// Predicate over item identity. `Custom` carries only a description: the
/// configuration layer supplies no comparable predicate value, so a custom
/// filter accepts every item and is distinguished from other custom filters
/// by its description text alone.
pub enum Filter {
    Label(String),
    Name(String),
    Both { label: String, name: String },
    Custom { desc: String },
}

impl Clone for Filter {
    fn clone(&self) -> (r: Self)
        ensures
            r == *self,
    {
        match self {
            Filter::Label(v) => Filter::Label(v.clone()),
            Filter::Name(v) => Filter::Name(v.clone()),
            Filter::Both { label, name } => Filter::Both {
                label: label.clone(),
                name: name.clone(),
            },
            Filter::Custom { desc } => Filter::Custom { desc: desc.clone() },
        }
    }
}

impl Filter {
    /// What it means for an item with the given label and name to satisfy
    /// this filter. A `Both` filter demands both fields at once.
    pub open spec fn spec_matches(self, label: Seq<char>, name: Seq<char>) -> bool {
        match self {
            Filter::Label(v) => v@ == label,
            Filter::Name(v) => v@ == name,
            Filter::Both { label: l, name: n } => l@ == label && n@ == name,
            Filter::Custom { desc: _ } => true,
        }
    }

    pub fn matches(&self, label: &String, name: &String) -> (r: bool)
        ensures
            r == self.spec_matches(label@, name@),
    {
        match self {
            Filter::Label(v) => *v == *label,
            Filter::Name(v) => *v == *name,
            Filter::Both { label: l, name: n } => *l == *label && *n == *name,
            Filter::Custom { desc: _ } => true,
        }
    }

    pub fn matches_stack(&self, stack: &DetailStack) -> (r: bool)
        ensures
            r == self.spec_matches(stack.detail.label@, stack.detail.name@),
    {
        self.matches(&stack.detail.label, &stack.detail.name)
    }
}

/// A `Both` filter matches only items satisfying both fields simultaneously,
/// never either alone.
pub proof fn lemma_both_matches_iff(label: Seq<char>, name: Seq<char>, l: String, n: String)
    ensures
        (Filter::Both { label: l, name: n }).spec_matches(label, name) <==> (l@ == label && n@
            == name),
        l@ == label && n@ != name ==> !(Filter::Both { label: l, name: n }).spec_matches(
            label,
            name,
        ),
        l@ != label && n@ == name ==> !(Filter::Both { label: l, name: n }).spec_matches(
            label,
            name,
        ),
{
}


/// Stack size assumed for an item synthesized from a filter alone, before
/// its real metadata is known.
pub const DEFAULT_MAX_STACK_SIZE: u32 = 64;

impl Filter {
    /// The representative item of a filter, used when a recipe output names
    /// an item only through its filter: label and name are taken from the
    /// filter's own fields, a custom filter is represented by its
    /// description.
    pub open spec fn spec_canonical_detail(self) -> Detail {
        match self {
            Filter::Label(v) => Detail {
                label: v,
                name: v,
                max_stack_size: DEFAULT_MAX_STACK_SIZE,
            },
            Filter::Name(v) => Detail { label: v, name: v, max_stack_size: DEFAULT_MAX_STACK_SIZE },
            Filter::Both { label, name } => Detail {
                label,
                name,
                max_stack_size: DEFAULT_MAX_STACK_SIZE,
            },
            Filter::Custom { desc } => Detail {
                label: desc,
                name: desc,
                max_stack_size: DEFAULT_MAX_STACK_SIZE,
            },
        }
    }

    pub fn canonical_detail(&self) -> (d: Detail)
        ensures
            d == self.spec_canonical_detail(),
    {
        match self {
            Filter::Label(v) => Detail {
                label: v.clone(),
                name: v.clone(),
                max_stack_size: DEFAULT_MAX_STACK_SIZE,
            },
            Filter::Name(v) => Detail {
                label: v.clone(),
                name: v.clone(),
                max_stack_size: DEFAULT_MAX_STACK_SIZE,
            },
            Filter::Both { label, name } => Detail {
                label: label.clone(),
                name: name.clone(),
                max_stack_size: DEFAULT_MAX_STACK_SIZE,
            },
            Filter::Custom { desc } => Detail {
                label: desc.clone(),
                name: desc.clone(),
                max_stack_size: DEFAULT_MAX_STACK_SIZE,
            },
        }
    }
}

/// The representative item of a filter satisfies that filter.
pub proof fn lemma_canonical_matches(f: Filter)
    ensures
        f.spec_matches(f.spec_canonical_detail().label@, f.spec_canonical_detail().name@),
{
}

} // verus!
