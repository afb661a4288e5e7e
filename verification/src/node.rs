//! The tree that a query parses to.
use std::rc::Rc;
use vstd::prelude::*;

verus! {

/// A search clause: an index, a relation and a term, with what modifies the
/// relation.
///
/// The same shape serves for a modifier (its name in `index`, its value in
/// `term`), for a sort key (its name in `index`) and for a relation that
/// waits for its term (`term` is `None`). The two URIs are kept for later
/// use and are always `None`.
#[derive(Debug, PartialEq, Eq)]
pub struct St {
    pub index: String,
    pub index_uri: Option<String>,
    pub term: Option<String>,
    pub relation: String,
    pub relation_uri: Option<String>,
    /// The modifier of the relation. One modifier may be shared by many
    /// clauses.
    pub modifiers: Option<Rc<St>>,
}

/// Two clauses joined by a boolean operator, written as in the query.
#[derive(Debug, PartialEq, Eq)]
pub struct Boolean {
    pub value: String,
    pub left: Box<CqlNode>,
    pub right: Box<CqlNode>,
    pub modifiers: Option<Rc<St>>,
}

/// A whole query: what to search for, and the keys to sort by.
#[derive(Debug, PartialEq, Eq)]
pub struct Root {
    pub search: Box<CqlNode>,
    pub sort: Vec<St>,
}

/// A node of the tree.
#[derive(Debug, PartialEq, Eq)]
pub enum CqlNode {
    St(St),
    Boolean(Boolean),
    Root(Root),
}

/// The mathematical value of an [`St`].
pub ghost struct StView {
    pub index: Seq<char>,
    pub index_uri: Option<Seq<char>>,
    pub term: Option<Seq<char>>,
    pub relation: Seq<char>,
    pub relation_uri: Option<Seq<char>>,
    pub modifiers: Option<Box<StView>>,
}

/// The mathematical value of a [`Boolean`].
pub ghost struct BooleanView {
    pub value: Seq<char>,
    pub left: Box<NodeView>,
    pub right: Box<NodeView>,
    pub modifiers: Option<Box<StView>>,
}

/// The mathematical value of a [`Root`].
pub ghost struct RootView {
    pub search: Box<NodeView>,
    pub sort: Seq<StView>,
}

/// The mathematical value of a [`CqlNode`].
pub ghost enum NodeView {
    St(StView),
    Boolean(BooleanView),
    Root(RootView),
}

/// The view of an optional string.
pub open spec fn text_of(s: Option<String>) -> Option<Seq<char>> {
    match s {
        Some(s) => Some(s@),
        None => None,
    }
}

/// The view of an optional string slice.
pub open spec fn slice_text_of(s: Option<&str>) -> Option<Seq<char>> {
    match s {
        Some(s) => Some(s@),
        None => None,
    }
}

/// The view of an optional modifier.
pub open spec fn modifier_of(m: Option<Rc<St>>) -> Option<Box<StView>>
    decreases m,
{
    match m {
        Some(m) => Some(Box::new((*m)@)),
        None => None,
    }
}

/// The views of a list of sort keys.
pub open spec fn keys_of(sort: Seq<St>) -> Seq<StView> {
    Seq::new(sort.len(), |i: int| sort[i]@)
}

impl View for St {
    type V = StView;

    open spec fn view(&self) -> StView
        decreases self,
    {
        StView {
            index: self.index@,
            index_uri: text_of(self.index_uri),
            term: text_of(self.term),
            relation: self.relation@,
            relation_uri: text_of(self.relation_uri),
            modifiers: match self.modifiers {
                Some(m) => Some(Box::new((*m).view())),
                None => None,
            },
        }
    }
}

impl View for Boolean {
    type V = BooleanView;

    open spec fn view(&self) -> BooleanView
        decreases self,
    {
        BooleanView {
            value: self.value@,
            left: Box::new((*self.left).view()),
            right: Box::new((*self.right).view()),
            modifiers: modifier_of(self.modifiers),
        }
    }
}

impl View for Root {
    type V = RootView;

    open spec fn view(&self) -> RootView
        decreases self,
    {
        RootView {
            search: Box::new((*self.search).view()),
            sort: keys_of(self.sort@),
        }
    }
}

impl View for CqlNode {
    type V = NodeView;

    open spec fn view(&self) -> NodeView
        decreases self,
    {
        match self {
            CqlNode::St(st) => NodeView::St(st@),
            CqlNode::Boolean(b) => NodeView::Boolean(b.view()),
            CqlNode::Root(r) => NodeView::Root(r.view()),
        }
    }
}

impl NodeView {
    /// Whether no root occurs in the tree.
    pub open spec fn rootless(self) -> bool
        decreases self,
    {
        match self {
            NodeView::St(_) => true,
            NodeView::Boolean(b) => b.left.rootless() && b.right.rootless(),
            NodeView::Root(_) => false,
        }
    }

    /// Whether the tree is a query: a root at the top, and no other root.
    pub open spec fn is_query(self) -> bool {
        match self {
            NodeView::Root(r) => r.search.rootless(),
            _ => false,
        }
    }
}

/// `Rc::clone` of the standard library: one more pointer to the value that
/// `m` points to. Not proved here.
#[verifier::external_body]
fn share(m: &Rc<St>) -> (same: Rc<St>)
    ensures
        same == *m,
{
    Rc::clone(m)
}

/// A copy of an optional string.
fn copy_text(s: &Option<String>) -> (copy: Option<String>)
    ensures
        text_of(copy) == text_of(*s),
{
    match s {
        Some(s) => Some(s.clone()),
        None => None,
    }
}

impl CqlNode {
    /// A search clause like `st` in everything but its term, which is `term`.
    /// The modifier is shared with `st`, not copied.
    pub fn mk_sc_dup(st: &St, term: &str) -> (node: CqlNode)
        ensures
            node@ == NodeView::St((StView { term: Some(term@), ..st@ })),
    {
        let modifiers = match &st.modifiers {
            Some(m) => Some(share(m)),
            None => None,
        };
        let st2 = St {
            index: st.index.clone(),
            index_uri: copy_text(&st.index_uri),
            term: Some(term.to_owned()),
            relation: st.relation.clone(),
            relation_uri: copy_text(&st.relation_uri),
            modifiers,
        };
        CqlNode::St(st2)
    }

    /// A search clause of the given index, relation, term and modifier, and
    /// without URIs.
    pub fn mk_sc(index: &str, relation: &str, term: Option<&str>, modifiers: Option<Rc<St>>) -> (st:
        St)
        ensures
            st@ == (StView {
                index: index@,
                index_uri: None,
                term: slice_text_of(term),
                relation: relation@,
                relation_uri: None,
                modifiers: modifier_of(modifiers),
            }),
    {
        let term = match term {
            Some(s) => Some(s.to_owned()),
            None => None,
        };
        St {
            index: index.to_owned(),
            index_uri: None,
            term,
            relation: relation.to_owned(),
            relation_uri: None,
            modifiers,
        }
    }

    /// The node that joins `left` and `right` by the operator `value`.
    pub fn mk_boolean(
        value: &str,
        left: Box<CqlNode>,
        right: Box<CqlNode>,
        modifiers: Option<Rc<St>>,
    ) -> (node: CqlNode)
        ensures
            node@ == NodeView::Boolean(
                (BooleanView {
                    value: value@,
                    left: Box::new(left@),
                    right: Box::new(right@),
                    modifiers: modifier_of(modifiers),
                }),
            ),
    {
        let bo = Boolean { value: value.to_owned(), left, right, modifiers };
        CqlNode::Boolean(bo)
    }

    /// The root over the tree `search` and the sort keys `sort`.
    pub fn mk_root(search: Box<CqlNode>, sort: Vec<St>) -> (node: CqlNode)
        ensures
            node@ == NodeView::Root(
                (RootView { search: Box::new(search@), sort: keys_of(sort@) }),
            ),
            search@.rootless() ==> node@.is_query(),
    {
        let root = Root { search, sort };
        CqlNode::Root(root)
    }
}

} // verus!
