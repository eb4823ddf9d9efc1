//! Human identifiers: multi-part namespace names, table identifiers, and the
//! tagged tabular variants that distinguish tables from views while sharing
//! one identity shape.

use vstd::prelude::*;

use crate::error::{CatalogResult, ErrorKind, ErrorModel};

verus! {

/// A namespace name: an ordered, non-empty sequence of name parts, compared
/// exactly (case-sensitive, byte-wise) on the canonical vector form.
#[derive(Debug)]
pub struct NamespaceIdent {
    parts: Vec<String>,
}

impl View for NamespaceIdent {
    type V = Seq<Seq<char>>;

    closed spec fn view(&self) -> Seq<Seq<char>> {
        self.parts.deep_view()
    }
}

/// Exact comparison of two name-part vectors.
pub fn string_vec_eq(a: &Vec<String>, b: &Vec<String>) -> (r: bool)
    ensures
        r == (a.deep_view() == b.deep_view()),
{
    if a.len() != b.len() {
        assert(a.deep_view().len() != b.deep_view().len());
        return false;
    }
    let n = a.len();
    let mut i: usize = 0;
    while i < n
        invariant
            n == a.len() == b.len(),
            i <= n,
            forall|j: int| 0 <= j < i ==> a.deep_view()[j] == b.deep_view()[j],
        decreases n - i,
    {
        if a[i] != b[i] {
            assert(a.deep_view()[i as int] != b.deep_view()[i as int]);
            return false;
        }
        i = i + 1;
    }
    proof {
        assert(a.deep_view() =~= b.deep_view());
    }
    true
}

impl NamespaceIdent {
    /// Build a namespace name from its parts; an empty vector is not a
    /// namespace name and is rejected as a parse error.
    pub fn from_vec(parts: Vec<String>) -> (r: CatalogResult<NamespaceIdent>)
        ensures
            parts.deep_view().len() == 0 <==> (r matches Err(e) && e.kind
                == ErrorKind::NamespaceParseError),
            parts.deep_view().len() > 0 ==> (r matches Ok(ns) && ns@ == parts.deep_view()),
    {
        if parts.len() == 0 {
            Err(ErrorModel::new(ErrorKind::NamespaceParseError, "Error parsing namespace".to_owned()))
        } else {
            Ok(NamespaceIdent { parts })
        }
    }

    pub fn parts(&self) -> (r: &Vec<String>)
        ensures
            r.deep_view() == self@,
    {
        &self.parts
    }

    pub open spec fn wf(&self) -> bool {
        self@.len() > 0
    }
}

impl Clone for NamespaceIdent {
    fn clone(&self) -> (r: Self)
        ensures
            r@ == self@,
    {
        let mut parts: Vec<String> = Vec::new();
        let n = self.parts.len();
        let mut i: usize = 0;
        while i < n
            invariant
                n == self.parts.len(),
                i <= n,
                parts.len() == i,
                forall|j: int| 0 <= j < i ==> parts@[j] == self.parts@[j],
            decreases n - i,
        {
            parts.push(self.parts[i].clone());
            i = i + 1;
        }
        proof {
            assert(parts@ =~= self.parts@);
            assert(parts.deep_view() =~= self.parts.deep_view());
        }
        NamespaceIdent { parts }
    }
}

impl PartialEq for NamespaceIdent {
    fn eq(&self, other: &Self) -> (r: bool) {
        string_vec_eq(&self.parts, &other.parts)
    }
}

impl vstd::std_specs::cmp::PartialEqSpecImpl for NamespaceIdent {
    open spec fn obeys_eq_spec() -> bool {
        true
    }

    open spec fn eq_spec(&self, other: &Self) -> bool {
        self@ == other@
    }
}

/// A table identifier: the namespace it lives in and its name within it.
#[derive(Debug)]
pub struct TableIdent {
    pub namespace: NamespaceIdent,
    pub name: String,
}

#[verifier::ext_equal]
pub struct TableIdentV {
    pub namespace: Seq<Seq<char>>,
    pub name: Seq<char>,
}

impl View for TableIdent {
    type V = TableIdentV;

    open spec fn view(&self) -> TableIdentV {
        TableIdentV { namespace: self.namespace@, name: self.name@ }
    }
}

impl TableIdent {
    pub fn new(namespace: NamespaceIdent, name: String) -> (r: Self)
        ensures
            r.namespace@ == namespace@,
            r.name@ == name@,
    {
        TableIdent { namespace, name }
    }
}

impl Clone for TableIdent {
    fn clone(&self) -> (r: Self)
        ensures
            r.namespace@ == self.namespace@,
            r.name@ == self.name@,
    {
        TableIdent { namespace: self.namespace.clone(), name: self.name.clone() }
    }
}

impl PartialEq for TableIdent {
    fn eq(&self, other: &Self) -> (r: bool) {
        self.namespace == other.namespace && self.name == other.name
    }
}

impl vstd::std_specs::cmp::PartialEqSpecImpl for TableIdent {
    open spec fn obeys_eq_spec() -> bool {
        true
    }

    open spec fn eq_spec(&self, other: &Self) -> bool {
        self.namespace@ == other.namespace@ && self.name@ == other.name@
    }
}

/// The two tabular kinds the catalog distinguishes under a common tag.
#[derive(Debug, Clone, Copy, PartialEq, Eq, Structural)]
pub enum TabularType {
    Table,
    View,
}

/// A stable tabular id: the UUID of a table or of a view.
#[derive(Debug, Clone, Copy, PartialEq, Eq, Structural)]
pub enum TabularIdentUuid {
    Table(u128),
    View(u128),
}

impl TabularIdentUuid {
    /// The id behind the tag.
    pub fn id(&self) -> (r: u128)
        ensures
            r == self.spec_id(),
    {
        match self {
            TabularIdentUuid::Table(id) => *id,
            TabularIdentUuid::View(id) => *id,
        }
    }

    pub open spec fn spec_id(&self) -> u128 {
        match self {
            TabularIdentUuid::Table(id) => *id,
            TabularIdentUuid::View(id) => *id,
        }
    }
}

/// An owned tabular identifier: a table's or a view's identifier.
#[derive(Debug, Clone, PartialEq)]
pub enum TabularIdentOwned {
    Table(TableIdent),
    View(TableIdent),
}

impl TabularIdentOwned {
    pub fn into_inner(self) -> (r: TableIdent)
        ensures
            r == self.spec_inner(),
    {
        match self {
            TabularIdentOwned::Table(ident) => ident,
            TabularIdentOwned::View(ident) => ident,
        }
    }

    pub open spec fn spec_inner(self) -> TableIdent {
        match self {
            TabularIdentOwned::Table(ident) => ident,
            TabularIdentOwned::View(ident) => ident,
        }
    }
}

/// A borrowed tabular identifier.
#[derive(Debug, Clone)]
pub enum TabularIdentRef<'a> {
    Table(&'a TableIdent),
    View(&'a TableIdent),
}

impl<'a> TabularIdentRef<'a> {
    pub fn to_table_ident_tuple(&self) -> (r: &'a TableIdent)
        ensures
            r == self.spec_inner(),
    {
        match self {
            TabularIdentRef::Table(ident) => ident,
            TabularIdentRef::View(ident) => ident,
        }
    }

    pub open spec fn spec_inner(self) -> &'a TableIdent {
        match self {
            TabularIdentRef::Table(ident) => ident,
            TabularIdentRef::View(ident) => ident,
        }
    }

    pub fn to_owned_ident(&self) -> (r: TabularIdentOwned)
        ensures
            self is Table ==> r is Table,
            self is View ==> r is View,
            r.spec_inner().namespace@ == self.spec_inner().namespace@,
            r.spec_inner().name@ == self.spec_inner().name@,
    {
        match self {
            TabularIdentRef::Table(ident) => TabularIdentOwned::Table((*ident).clone()),
            TabularIdentRef::View(ident) => TabularIdentOwned::View((*ident).clone()),
        }
    }

    pub fn tabular_type(&self) -> (r: TabularType)
        ensures
            r == (if self is Table {
                TabularType::Table
            } else {
                TabularType::View
            }),
    {
        match self {
            TabularIdentRef::Table(_) => TabularType::Table,
            TabularIdentRef::View(_) => TabularType::View,
        }
    }
}

impl From<TabularIdentUuid> for TabularType {
    fn from(ident: TabularIdentUuid) -> (r: Self) {
        match ident {
            TabularIdentUuid::Table(_) => TabularType::Table,
            TabularIdentUuid::View(_) => TabularType::View,
        }
    }
}

impl vstd::std_specs::convert::FromSpecImpl<TabularIdentUuid> for TabularType {
    open spec fn obeys_from_spec() -> bool {
        true
    }

    open spec fn from_spec(ident: TabularIdentUuid) -> Self {
        match ident {
            TabularIdentUuid::Table(_) => TabularType::Table,
            TabularIdentUuid::View(_) => TabularType::View,
        }
    }
}

} // verus!
