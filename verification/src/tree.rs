//! Generic tree-building blocks for Ember+ providers.
use crate::glow::{Access, GlowValue, GlowValueView, ParameterInfo, ParameterType};
use crate::handler::Handler;
use vstd::prelude::*;

verus! {

/// A parameter in the Ember+ tree.
#[derive(Debug)]
pub struct Parameter {
    /// The parameter's number within its parent.
    pub number: u32,
    /// The parameter's identifier.
    pub identifier: String,
    /// Optional description.
    pub description: Option<String>,
    /// The parameter's current value.
    pub value: GlowValue,
    /// Whether the parameter is writable.
    pub access: Access,
    /// Parameter type hint.
    pub parameter_type: ParameterType,
}

/// A node in the Ember+ tree.
#[derive(Debug)]
pub struct Node {
    /// The node's number within its parent.
    pub number: u32,
    /// The node's identifier.
    pub identifier: String,
    /// Optional description.
    pub description: Option<String>,
    /// Child elements.
    pub children: Vec<TreeElement>,
}

/// An element in the Ember+ tree.
#[derive(Debug)]
pub enum TreeElement {
    /// A node.
    Node(Node),
    /// A parameter.
    Parameter(Parameter),
}

/// A fixed Ember+ tree definition.
#[derive(Debug)]
pub struct Tree {
    /// Root elements of the tree.
    pub root: Vec<TreeElement>,
}

// ---------------------------------------------------------------------------
// Model
// ---------------------------------------------------------------------------

/// The text of an optional string.
pub open spec fn opt_text(d: Option<String>) -> Option<Seq<char>> {
    match d {
        Some(s) => Some(s@),
        None => None,
    }
}

/// The mathematical model of a [`Parameter`].
pub struct ParameterView {
    pub number: u32,
    pub identifier: Seq<char>,
    pub description: Option<Seq<char>>,
    pub value: GlowValueView,
    pub access: Access,
    pub parameter_type: ParameterType,
}

/// The mathematical model of a [`Node`].
pub struct NodeView {
    pub number: u32,
    pub identifier: Seq<char>,
    pub description: Option<Seq<char>>,
    pub children: Seq<ElementView>,
}

/// The mathematical model of a [`TreeElement`].
pub enum ElementView {
    Node(NodeView),
    Parameter(ParameterView),
}

impl View for Parameter {
    type V = ParameterView;

    open spec fn view(&self) -> ParameterView {
        ParameterView {
            number: self.number,
            identifier: self.identifier@,
            description: opt_text(self.description),
            value: self.value@,
            access: self.access,
            parameter_type: self.parameter_type,
        }
    }
}

/// The model of an element, children included.
pub open spec fn element_view(e: TreeElement) -> ElementView
    decreases e,
{
    match e {
        TreeElement::Node(n) => ElementView::Node(
            NodeView {
                number: n.number,
                identifier: n.identifier@,
                description: opt_text(n.description),
                children: Seq::new(
                    n.children@.len(),
                    |i: int|
                        if 0 <= i < n.children@.len() {
                            element_view(n.children@[i])
                        } else {
                            arbitrary()
                        },
                ),
            },
        ),
        TreeElement::Parameter(p) => ElementView::Parameter(p@),
    }
}

/// The models of a sequence of elements.
pub open spec fn elements_view(s: Seq<TreeElement>) -> Seq<ElementView> {
    Seq::new(s.len(), |i: int| element_view(s[i]))
}

impl View for TreeElement {
    type V = ElementView;

    open spec fn view(&self) -> ElementView {
        element_view(*self)
    }
}

impl View for Node {
    type V = NodeView;

    open spec fn view(&self) -> NodeView {
        NodeView {
            number: self.number,
            identifier: self.identifier@,
            description: opt_text(self.description),
            children: elements_view(self.children@),
        }
    }
}

impl View for Tree {
    type V = Seq<ElementView>;

    open spec fn view(&self) -> Seq<ElementView> {
        elements_view(self.root@)
    }
}

/// The number of an element within its parent.
pub open spec fn number_of(e: ElementView) -> u32 {
    match e {
        ElementView::Node(n) => n.number,
        ElementView::Parameter(p) => p.number,
    }
}

/// The first index at or after `start` of an element numbered `number`.
pub open spec fn index_of_number_from(s: Seq<ElementView>, number: u32, start: int) -> Option<
    int,
>
    decreases s.len() - start,
{
    if start < 0 || start >= s.len() {
        None
    } else if number_of(s[start]) == number {
        Some(start)
    } else {
        index_of_number_from(s, number, start + 1)
    }
}

/// The index of the first element numbered `number`.
pub open spec fn index_of_number(s: Seq<ElementView>, number: u32) -> Option<int> {
    index_of_number_from(s, number, 0)
}

/// The element that `path` leads to among `elements`: the first element
/// numbered `path[0]`, then, inside it (when it is a node), the first child
/// numbered `path[1]`, and so on. There is none for the empty path, when a
/// number is missing, or when the path goes on below a parameter.
pub open spec fn find_in(elements: Seq<ElementView>, path: Seq<u32>) -> Option<ElementView>
    decreases path.len(),
{
    if path.len() == 0 {
        None
    } else {
        match index_of_number(elements, path[0]) {
            None => None,
            Some(i) => if path.len() == 1 {
                Some(elements[i])
            } else {
                match elements[i] {
                    ElementView::Node(n) => find_in(n.children, path.drop_first()),
                    ElementView::Parameter(_) => None,
                }
            },
        }
    }
}

/// `new` is `old` with the element that `path` leads to replaced by `v`: the
/// nodes on the way keep their number, identifier and description, and
/// everything off the path is unchanged.
pub open spec fn replaced_at(
    old: Seq<ElementView>,
    new: Seq<ElementView>,
    path: Seq<u32>,
    v: ElementView,
) -> bool
    decreases path.len(),
{
    if path.len() == 0 {
        false
    } else {
        match index_of_number(old, path[0]) {
            None => false,
            Some(i) => {
                &&& new.len() == old.len()
                &&& forall|j: int| 0 <= j < old.len() && j != i ==> new[j] == old[j]
                &&& if path.len() == 1 {
                    new[i] == v
                } else {
                    match old[i] {
                        ElementView::Node(o) => match new[i] {
                            ElementView::Node(n) => {
                                &&& n.number == o.number
                                &&& n.identifier == o.identifier
                                &&& n.description == o.description
                                &&& replaced_at(o.children, n.children, path.drop_first(), v)
                            },
                            ElementView::Parameter(_) => false,
                        },
                        ElementView::Parameter(_) => false,
                    }
                }
            },
        }
    }
}

/// Two elements agree in everything but the values of their parameters, at
/// every depth.
pub open spec fn same_shape(a: ElementView, b: ElementView) -> bool
    decreases a,
{
    match a {
        ElementView::Node(x) => match b {
            ElementView::Node(y) => {
                &&& x.number == y.number
                &&& x.identifier == y.identifier
                &&& x.description == y.description
                &&& x.children.len() == y.children.len()
                &&& forall|i: int|
                    0 <= i < x.children.len() ==> #[trigger] same_shape(
                        x.children[i],
                        y.children[i],
                    )
            },
            ElementView::Parameter(_) => false,
        },
        ElementView::Parameter(x) => match b {
            ElementView::Parameter(y) => {
                &&& x.number == y.number
                &&& x.identifier == y.identifier
                &&& x.description == y.description
                &&& x.access == y.access
                &&& x.parameter_type == y.parameter_type
            },
            ElementView::Node(_) => false,
        },
    }
}

/// Two element sequences agree element by element in everything but the
/// values of their parameters.
pub open spec fn same_shapes(a: Seq<ElementView>, b: Seq<ElementView>) -> bool {
    &&& a.len() == b.len()
    &&& forall|i: int| 0 <= i < a.len() ==> #[trigger] same_shape(a[i], b[i])
}

// ---------------------------------------------------------------------------
// Implementation
// ---------------------------------------------------------------------------

fn position_of_number(elements: &Vec<TreeElement>, number: u32) -> (r: Option<usize>)
    ensures
        index_of_number(elements_view(elements@), number) == match r {
            Some(i) => Some(i as int),
            None => None,
        },
        r matches Some(i) ==> i < elements@.len(),
{
    let ghost s = elements_view(elements@);
    let mut i: usize = 0;
    while i < elements.len()
        invariant
            i <= elements@.len(),
            s == elements_view(elements@),
            index_of_number(s, number) == index_of_number_from(s, number, i as int),
        decreases elements.len() - i,
    {
        if elements[i].number() == number {
            return Some(i);
        }
        i += 1;
    }
    None
}

impl TreeElement {
    /// Get the number of this element within its parent.
    pub fn number(&self) -> (r: u32)
        ensures
            r == number_of(self@),
    {
        match self {
            TreeElement::Node(n) => n.number,
            TreeElement::Parameter(p) => p.number,
        }
    }

    /// Get the identifier of this element.
    pub fn identifier(&self) -> (r: &str)
        ensures
            r@ == match self@ {
                ElementView::Node(n) => n.identifier,
                ElementView::Parameter(p) => p.identifier,
            },
    {
        match self {
            TreeElement::Node(n) => n.identifier.as_str(),
            TreeElement::Parameter(p) => p.identifier.as_str(),
        }
    }
}

impl Tree {
    /// Create a new, empty tree.
    pub fn new() -> (t: Self)
        ensures
            t@ == Seq::<ElementView>::empty(),
    {
        let t = Self { root: Vec::new() };
        assert(t@ =~= Seq::<ElementView>::empty());
        t
    }

    /// Add a root element.
    pub fn add(&mut self, element: TreeElement)
        ensures
            final(self)@ == old(self)@.push(element@),
    {
        self.root.push(element);
        assert(self@ =~= old(self)@.push(element@));
    }

    /// Find a mutable parameter by path.
    pub fn find_parameter_mut(&mut self, path: &[u32]) -> (res: Option<&mut Parameter>)
        ensures
            match find_in(old(self)@, path@) {
                Some(ElementView::Parameter(p)) => res matches Some(r) && r@ == p && replaced_at(
                    old(self)@,
                    final(self)@,
                    path@,
                    ElementView::Parameter(final(r)@),
                ),
                _ => res is None && final(self)@ == old(self)@,
            },
    {
        proof {
            if find_in(self@, path@) is Some {
                lemma_replaced_by_itself(self@, path@);
            }
        }
        let element = self.find_mut(path)?;
        match element {
            TreeElement::Parameter(param) => Some(param),
            _ => None,
        }
    }

    fn find_mut(&mut self, path: &[u32]) -> (res: Option<&mut TreeElement>)
        ensures
            match find_in(old(self)@, path@) {
                Some(e) => res matches Some(r) && r@ == e && replaced_at(
                    old(self)@,
                    final(self)@,
                    path@,
                    final(r)@,
                ),
                None => res is None && final(self)@ == old(self)@,
            },
    {
        if path.len() == 0 {
            return None;
        }
        assert(path@.skip(0) =~= path@);
        find_mut_in(&mut self.root, path, 0)
    }

    /// Find an element by its path.
    pub fn find(&self, path: &[u32]) -> (res: Option<&TreeElement>)
        ensures
            match find_in(self@, path@) {
                Some(e) => res matches Some(r) && r@ == e,
                None => res is None,
            },
    {
        if path.len() == 0 {
            return None;
        }
        let mut current: &Vec<TreeElement> = &self.root;
        let mut depth: usize = 0;
        assert(path@.skip(0) =~= path@);
        loop
            invariant
                depth < path@.len(),
                find_in(self@, path@) == find_in(
                    elements_view(current@),
                    path@.skip(depth as int),
                ),
            decreases path@.len() - depth,
        {
            let ghost rest = path@.skip(depth as int);
            assert(rest[0] == path@[depth as int]);
            assert(rest.drop_first() =~= path@.skip(depth + 1));
            let number = path[depth];
            match position_of_number(current, number) {
                None => {
                    return None;
                },
                Some(i) => {
                    if depth + 1 == path.len() {
                        return Some(&current[i]);
                    }
                    match &current[i] {
                        TreeElement::Node(node) => {
                            assert(elements_view(node.children@) =~= match elements_view(
                                current@,
                            )[i as int] {
                                ElementView::Node(n) => n.children,
                                ElementView::Parameter(_) => Seq::empty(),
                            });
                            current = &node.children;
                            depth += 1;
                        },
                        TreeElement::Parameter(_) => {
                            return None;
                        },
                    }
                },
            }
        }
    }
}

impl Parameter {
    /// Convert to a Glow parameter info for encoding.
    pub fn to_glow_info(&self) -> (info: ParameterInfo)
        ensures
            info.identifier@ == self.identifier@,
            opt_text(info.description) == opt_text(self.description),
            info.value@ == self.value@,
            info.access == self.access,
            info.parameter_type == self.parameter_type,
    {
        ParameterInfo {
            identifier: self.identifier.clone(),
            description: self.description.clone(),
            value: self.value.clone(),
            access: self.access,
            parameter_type: self.parameter_type,
        }
    }

    /// Take over the value that a handler reported for this parameter, if it
    /// reported one.
    pub fn refresh_value(&mut self, reported: Option<GlowValue>)
        ensures
            final(self)@ == (ParameterView {
                value: match reported {
                    Some(v) => v@,
                    None => old(self)@.value,
                },
                ..old(self)@
            }),
    {
        if let Some(value) = reported {
            self.value = value;
        }
    }
}

/// `b` is the element `a`, sitting below the numbers `prefix`, after a
/// refresh through `handler`: `a`'s shape is kept, and each parameter holds the
/// value that `handler.get_value` reported for the parameter's full path
/// (`prefix`, then the numbers down to it), or its old value when none was
/// reported.
pub open spec fn refreshed<H: Handler + ?Sized>(
    a: ElementView,
    b: ElementView,
    prefix: Seq<u32>,
    handler: &H,
) -> bool
    decreases a,
{
    match a {
        ElementView::Node(x) => match b {
            ElementView::Node(y) => {
                &&& x.number == y.number
                &&& x.identifier == y.identifier
                &&& x.description == y.description
                &&& x.children.len() == y.children.len()
                &&& forall|i: int|
                    0 <= i < x.children.len() ==> #[trigger] refreshed(
                        x.children[i],
                        y.children[i],
                        prefix.push(x.number),
                        handler,
                    )
            },
            ElementView::Parameter(_) => false,
        },
        ElementView::Parameter(x) => match b {
            ElementView::Parameter(y) => {
                &&& y == ParameterView { value: y.value, ..x }
                &&& exists|s: &[u32], reported: Option<GlowValue>|
                    #![trigger call_ensures(H::get_value, (handler, s), reported)]
                    s@ == prefix.push(x.number) && call_ensures(
                        H::get_value,
                        (handler, s),
                        reported,
                    ) && y.value == match reported {
                        Some(v) => v@,
                        None => x.value,
                    }
            },
            ElementView::Node(_) => false,
        },
    }
}

/// `b` is the sequence `a`, sitting below `prefix`, after a refresh through
/// `handler`, element by element.
pub open spec fn refreshed_all<H: Handler + ?Sized>(
    a: Seq<ElementView>,
    b: Seq<ElementView>,
    prefix: Seq<u32>,
    handler: &H,
) -> bool {
    &&& a.len() == b.len()
    &&& forall|i: int| 0 <= i < a.len() ==> #[trigger] refreshed(a[i], b[i], prefix, handler)
}

/// The parameter `y` is the parameter `x`, at the full path `full_path`,
/// after a refresh through `handler`: only its value may differ, and it is
/// what `handler.get_value` reported for `full_path`, or the old value when
/// nothing was reported.
pub open spec fn parameter_refreshed<H: Handler + ?Sized>(
    x: ParameterView,
    y: ParameterView,
    full_path: Seq<u32>,
    handler: &H,
) -> bool {
    &&& y == ParameterView { value: y.value, ..x }
    &&& exists|s: &[u32], reported: Option<GlowValue>|
        #![trigger call_ensures(H::get_value, (handler, s), reported)]
        s@ == full_path && call_ensures(H::get_value, (handler, s), reported) && y.value
            == match reported {
            Some(v) => v@,
            None => x.value,
        }
}

/// Every parameter that a path leads to in `a` (sitting below `prefix`) is,
/// through the same path in `b`, that parameter refreshed through `handler`.
pub open spec fn paths_refreshed<H: Handler + ?Sized>(
    a: Seq<ElementView>,
    b: Seq<ElementView>,
    prefix: Seq<u32>,
    handler: &H,
) -> bool {
    forall|path: Seq<u32>| #[trigger] path_refreshed(a, b, prefix, handler, path)
}

/// When `path` leads to a parameter in `a` (sitting below `prefix`), it leads
/// in `b` to that parameter refreshed through `handler`.
pub open spec fn path_refreshed<H: Handler + ?Sized>(
    a: Seq<ElementView>,
    b: Seq<ElementView>,
    prefix: Seq<u32>,
    handler: &H,
    path: Seq<u32>,
) -> bool {
    find_in(a, path) matches Some(ElementView::Parameter(x)) ==> find_in(b, path) matches Some(
        ElementView::Parameter(y),
    ) && parameter_refreshed(x, y, prefix + path, handler)
}

/// One element of a refreshed sequence: a parameter refreshed at its full
/// path, or a node of the same number whose children are refreshed below it.
pub open spec fn element_refreshed<H: Handler + ?Sized>(
    a: ElementView,
    b: ElementView,
    prefix: Seq<u32>,
    handler: &H,
) -> bool {
    match a {
        ElementView::Parameter(x) => match b {
            ElementView::Parameter(y) => parameter_refreshed(x, y, prefix.push(x.number), handler),
            ElementView::Node(_) => false,
        },
        ElementView::Node(n) => match b {
            ElementView::Node(m) => n.number == m.number && paths_refreshed(
                n.children,
                m.children,
                prefix.push(n.number),
                handler,
            ),
            ElementView::Parameter(_) => false,
        },
    }
}

/// A sequence whose elements are refreshed one by one is refreshed along
/// every path.
proof fn lemma_paths_refreshed<H: Handler + ?Sized>(
    a: Seq<ElementView>,
    b: Seq<ElementView>,
    prefix: Seq<u32>,
    handler: &H,
)
    requires
        a.len() == b.len(),
        forall|j: int| 0 <= j < a.len() ==> #[trigger] element_refreshed(a[j], b[j], prefix, handler),
    ensures
        paths_refreshed(a, b, prefix, handler),
{
    assert forall|path: Seq<u32>| #[trigger] path_refreshed(a, b, prefix, handler, path) by {
        lemma_paths_refreshed_at(a, b, prefix, handler, path);
    }
}

proof fn lemma_paths_refreshed_at<H: Handler + ?Sized>(
    a: Seq<ElementView>,
    b: Seq<ElementView>,
    prefix: Seq<u32>,
    handler: &H,
    path: Seq<u32>,
)
    requires
        a.len() == b.len(),
        forall|j: int| 0 <= j < a.len() ==> #[trigger] element_refreshed(a[j], b[j], prefix, handler),
    ensures
        path_refreshed(a, b, prefix, handler, path),
{
    if find_in(a, path) matches Some(ElementView::Parameter(x)) {
        lemma_index_of_number_from(a, path[0], 0);
        let i = index_of_number(a, path[0])->0;
        assert forall|j: int| 0 <= j < a.len() implies number_of(#[trigger] b[j]) == number_of(a[j]) by {
            assert(element_refreshed(a[j], b[j], prefix, handler));
        }
        lemma_index_of_number_same(a, b, path[0], 0);
        assert(element_refreshed(a[i], b[i], prefix, handler));
        if path.len() == 1 {
            assert(prefix.push(path[0]) =~= prefix + path);
        } else {
            let n = a[i]->Node_0;
            let m = b[i]->Node_0;
            assert(find_in(n.children, path.drop_first()) == find_in(a, path));
            assert(path_refreshed(n.children, m.children, prefix.push(n.number), handler, path.drop_first()));
            assert(prefix.push(n.number) + path.drop_first() =~= prefix + path);
        }
    }
}

/// After a refresh of a whole tree, every parameter that a path leads to
/// holds what the handler reported for that path, whatever it held before,
/// or its old value when the handler reported nothing; its number,
/// identifier, description, access and type are kept.
pub proof fn lemma_refresh_takes_reported_values<H: Handler + ?Sized>(
    old_tree: Seq<ElementView>,
    new_tree: Seq<ElementView>,
    handler: &H,
    path: Seq<u32>,
)
    requires
        paths_refreshed(old_tree, new_tree, Seq::empty(), handler),
        find_in(old_tree, path) matches Some(ElementView::Parameter(_)),
    ensures
        ({
            let x = find_in(old_tree, path)->0->Parameter_0;
            find_in(new_tree, path) matches Some(ElementView::Parameter(y)) && {
                &&& y.number == x.number
                &&& y.identifier == x.identifier
                &&& y.description == x.description
                &&& y.access == x.access
                &&& y.parameter_type == x.parameter_type
                &&& exists|s: &[u32], reported: Option<GlowValue>|
                    #![trigger call_ensures(H::get_value, (handler, s), reported)]
                    s@ == path && call_ensures(H::get_value, (handler, s), reported) && y.value
                        == match reported {
                        Some(v) => v@,
                        None => x.value,
                    }
            }
        }),
{
    assert(path_refreshed(old_tree, new_tree, Seq::empty(), handler, path));
    assert(Seq::<u32>::empty() + path =~= path);
}

/// Two sequences whose elements carry the same numbers find each number at
/// the same index.
proof fn lemma_index_of_number_same(a: Seq<ElementView>, b: Seq<ElementView>, number: u32, start: int)
    requires
        a.len() == b.len(),
        forall|j: int| 0 <= j < a.len() ==> number_of(#[trigger] b[j]) == number_of(a[j]),
        0 <= start,
    ensures
        index_of_number_from(b, number, start) == index_of_number_from(a, number, start),
    decreases a.len() - start,
{
    if start < a.len() {
        assert(number_of(b[start]) == number_of(a[start]));
        lemma_index_of_number_same(a, b, number, start + 1);
    }
}

/// Update parameter values in a tree from a handler.
///
/// Every parameter is offered the value that `handler.get_value` reports for
/// its full path; the tree keeps its shape.
pub fn refresh_tree_values<H: Handler + ?Sized>(tree: &mut Tree, handler: &H)
    ensures
        refreshed_all(old(tree)@, final(tree)@, Seq::empty(), handler),
        paths_refreshed(old(tree)@, final(tree)@, Seq::empty(), handler),
        same_shapes(old(tree)@, final(tree)@),
{
    let empty: Vec<u32> = Vec::new();
    refresh_elements(&mut tree.root, empty.as_slice(), handler);
}

fn refresh_elements<H: Handler + ?Sized>(elements: &mut Vec<TreeElement>, path: &[u32], handler: &H)
    ensures
        refreshed_all(elements_view(old(elements)@), elements_view(final(elements)@), path@, handler),
        paths_refreshed(elements_view(old(elements)@), elements_view(final(elements)@), path@, handler),
        same_shapes(elements_view(old(elements)@), elements_view(final(elements)@)),
    decreases old(elements)@,
{
    let ghost initial = elements@;
    let n = elements.len();
    let mut i: usize = 0;
    while i < n
        invariant
            initial == old(elements)@,
            n == initial.len(),
            i <= n,
            elements@.len() == n,
            forall|j: int|
                0 <= j < i ==> #[trigger] refreshed(
                    element_view(initial[j]),
                    element_view(elements@[j]),
                    path@,
                    handler,
                ),
            forall|j: int|
                0 <= j < i ==> #[trigger] same_shape(
                    element_view(initial[j]),
                    element_view(elements@[j]),
                ),
            forall|j: int|
                0 <= j < i ==> #[trigger] element_refreshed(
                    element_view(initial[j]),
                    element_view(elements@[j]),
                    path@,
                    handler,
                ),
            forall|j: int| i <= j < n ==> #[trigger] elements@[j] == initial[j],
        decreases n - i,
    {
        let mut item_path = vstd::slice::slice_to_vec(path);
        let ghost before = elements@[i as int];
        match &mut elements[i] {
            TreeElement::Node(node) => {
                item_path.push(node.number);
                let mut children: Vec<TreeElement> = Vec::new();
                std::mem::swap(&mut children, &mut node.children);
                proof {
                    assert(decreases_to!(initial => initial[i as int]));
                    assert(decreases_to!(initial[i as int] => children@));
                }
                refresh_elements(&mut children, item_path.as_slice(), handler);
                std::mem::swap(&mut children, &mut node.children);
            },
            TreeElement::Parameter(param) => {
                item_path.push(param.number);
                let reported = handler.get_value(item_path.as_slice());
                param.refresh_value(reported);
            },
        }
        proof {
            let after = elements@[i as int];
            if let TreeElement::Node(x) = before {
                let y = after->Node_0;
                assert(after == TreeElement::Node(y));
                let xv = element_view(before)->Node_0;
                let yv = element_view(after)->Node_0;
                assert(xv.children =~= elements_view(x.children@));
                assert(yv.children =~= elements_view(y.children@));
                assert forall|k: int| 0 <= k < xv.children.len() implies refreshed(
                    #[trigger] xv.children[k],
                    yv.children[k],
                    path@.push(x.number),
                    handler,
                ) by {}
                assert forall|k: int| 0 <= k < xv.children.len() implies same_shape(
                    #[trigger] xv.children[k],
                    yv.children[k],
                ) by {}
            }
            assert(refreshed(element_view(before), element_view(after), path@, handler));
            assert(same_shape(element_view(before), element_view(after)));
            assert(element_refreshed(element_view(before), element_view(after), path@, handler));
        }
        i += 1;
    }
    proof {
        let a = elements_view(initial);
        let b = elements_view(elements@);
        assert forall|j: int| 0 <= j < a.len() implies #[trigger] element_refreshed(
            a[j],
            b[j],
            path@,
            handler,
        ) by {
            assert(element_refreshed(element_view(initial[j]), element_view(elements@[j]), path@, handler));
        }
        lemma_paths_refreshed(a, b, path@, handler);
    }
}

fn find_mut_in<'a>(elements: &'a mut Vec<TreeElement>, path: &[u32], depth: usize) -> (res:
    Option<&'a mut TreeElement>)
    requires
        depth < path@.len(),
    ensures
        match find_in(elements_view(old(elements)@), path@.skip(depth as int)) {
            Some(e) => res matches Some(r) && r@ == e && replaced_at(
                elements_view(old(elements)@),
                elements_view(final(elements)@),
                path@.skip(depth as int),
                final(r)@,
            ),
            None => res is None && elements_view(final(elements)@) == elements_view(
                old(elements)@,
            ),
        },
    decreases path@.len() - depth,
{
    let ghost rest = path@.skip(depth as int);
    assert(rest[0] == path@[depth as int]);
    assert(rest.drop_first() =~= path@.skip(depth + 1));
    proof {
        lemma_view_facts();
    }
    let i = match position_of_number(elements, path[depth]) {
        Some(i) => i,
        None => {
            return None;
        },
    };
    if depth + 1 == path.len() {
        return Some(&mut elements[i]);
    }
    match &mut elements[i] {
        TreeElement::Node(node) => find_mut_in(&mut node.children, path, depth + 1),
        TreeElement::Parameter(_) => None,
    }
}

/// How the models of nodes and of updated sequences unfold.
pub proof fn lemma_view_facts()
    ensures
        forall|n: Node| #[trigger] element_view(TreeElement::Node(n)) == ElementView::Node(n@),
        forall|s: Seq<TreeElement>, i: int, v: TreeElement|
            0 <= i < s.len() ==> #[trigger] elements_view(s.update(i, v)) == elements_view(
                s,
            ).update(i, element_view(v)),
        forall|s: Seq<ElementView>, i: int|
            0 <= i < s.len() ==> #[trigger] s.update(i, s[i]) == s,
{
    assert forall|n: Node| #[trigger]
        element_view(TreeElement::Node(n)) == ElementView::Node(n@) by {
        let v = element_view(TreeElement::Node(n))->Node_0;
        assert(v.children =~= elements_view(n.children@));
    }
    assert forall|s: Seq<TreeElement>, i: int, v: TreeElement|
        0 <= i < s.len() implies #[trigger] elements_view(s.update(i, v)) == elements_view(
            s,
        ).update(i, element_view(v)) by {
        assert(elements_view(s.update(i, v)) =~= elements_view(s).update(i, element_view(v)));
    }
    assert forall|s: Seq<ElementView>, i: int| 0 <= i < s.len() implies #[trigger] s.update(
        i,
        s[i],
    ) == s by {
        assert(s.update(i, s[i]) =~= s);
    }
}

/// The index of the first element with a number lies in range, holds that
/// number, and no element before it (from `start`) holds it.
pub proof fn lemma_index_of_number_from(s: Seq<ElementView>, number: u32, start: int)
    ensures
        index_of_number_from(s, number, start) matches Some(i) ==> {
            &&& start <= i < s.len()
            &&& number_of(s[i]) == number
            &&& forall|j: int| start <= j < i ==> number_of(#[trigger] s[j]) != number
        },
    decreases s.len() - start,
{
    if 0 <= start < s.len() && number_of(s[start]) != number {
        lemma_index_of_number_from(s, number, start + 1);
    }
}

/// What is written through a path is read back through it: after the
/// element that `path` leads to is replaced by `v`, the path leads to `v`,
/// provided `v` keeps the number that the path ends with.
pub proof fn lemma_find_after_replace(
    old: Seq<ElementView>,
    new: Seq<ElementView>,
    path: Seq<u32>,
    v: ElementView,
)
    requires
        replaced_at(old, new, path, v),
        number_of(v) == path.last(),
    ensures
        find_in(new, path) == Some(v),
    decreases path.len(),
{
    lemma_index_of_number_from(old, path[0], 0);
    let i = index_of_number(old, path[0])->0;
    assert forall|j: int| 0 <= j < i implies number_of(#[trigger] new[j]) != path[0] by {
        assert(new[j] == old[j]);
    }
    lemma_index_of_number_skip(new, path[0], 0, i);
    if path.len() == 1 {
        assert(number_of(new[i]) == path[0]);
    } else {
        let o = old[i]->Node_0;
        let n = new[i]->Node_0;
        assert(path.drop_first().last() == path.last());
        lemma_find_after_replace(o.children, n.children, path.drop_first(), v);
        assert(number_of(new[i]) == path[0]);
    }
    assert(index_of_number(new, path[0]) == Some(i));
}

/// The element that a path leads to carries the path's last number.
pub proof fn lemma_find_number(elements: Seq<ElementView>, path: Seq<u32>)
    ensures
        find_in(elements, path) matches Some(e) ==> number_of(e) == path.last(),
    decreases path.len(),
{
    if path.len() > 0 {
        lemma_index_of_number_from(elements, path[0], 0);
        if path.len() > 1 {
            if let Some(i) = index_of_number(elements, path[0]) {
                if let ElementView::Node(n) = elements[i] {
                    lemma_find_number(n.children, path.drop_first());
                    assert(path.drop_first().last() == path.last());
                }
            }
        }
    }
}

/// Replacing the element that a path leads to by itself changes nothing.
proof fn lemma_replaced_by_itself(old: Seq<ElementView>, path: Seq<u32>)
    requires
        find_in(old, path) is Some,
    ensures
        forall|new: Seq<ElementView>|
            #[trigger] replaced_at(old, new, path, find_in(old, path)->0) ==> new == old,
    decreases path.len(),
{
    let v = find_in(old, path)->0;
    lemma_index_of_number_from(old, path[0], 0);
    let i = index_of_number(old, path[0])->0;
    if path.len() > 1 {
        let o = old[i]->Node_0;
        lemma_replaced_by_itself(o.children, path.drop_first());
    }
    assert forall|new: Seq<ElementView>| #[trigger]
        replaced_at(old, new, path, v) implies new == old by {
        if path.len() > 1 {
            let o = old[i]->Node_0;
            let n = new[i]->Node_0;
            assert(replaced_at(o.children, n.children, path.drop_first(), v));
            assert(n.children == o.children);
            assert(n == o);
        }
        assert(new =~= old);
    }
}

// ---------------------------------------------------------------------------
// Cart trees
// ---------------------------------------------------------------------------

/// The model of a parameter with the given fields.
pub open spec fn parameter_view(
    number: u32,
    identifier: Seq<char>,
    description: Seq<char>,
    value: GlowValueView,
    access: Access,
    parameter_type: ParameterType,
) -> ElementView {
    ElementView::Parameter(
        ParameterView {
            number,
            identifier,
            description: Some(description),
            value,
            access,
            parameter_type,
        },
    )
}

/// The model of a cart slot: a node with a read-only `Name` parameter (1), a
/// pulse `Trigger` parameter (2) and a read-only `Status` parameter (3).
pub open spec fn cart_view(number: u32, identifier: Seq<char>, name: Seq<char>) -> ElementView {
    ElementView::Node(
        NodeView {
            number,
            identifier,
            description: None,
            children: seq![
                parameter_view(
                    1,
                    "Name"@,
                    "Cart name"@,
                    GlowValueView::String(name),
                    Access::Read,
                    ParameterType::String,
                ),
                parameter_view(
                    2,
                    "Trigger"@,
                    "Pulse to trigger"@,
                    GlowValueView::Boolean(false),
                    Access::ReadWrite,
                    ParameterType::Boolean,
                ),
                parameter_view(
                    3,
                    "Status"@,
                    "Playback status"@,
                    GlowValueView::Integer(0),
                    Access::Read,
                    ParameterType::Integer,
                ),
            ],
        },
    )
}

/// The model of the global stop-all parameter.
pub open spec fn stop_all_view(number: u32) -> ElementView {
    parameter_view(
        number,
        "StopAll"@,
        "Pulse to stop all"@,
        GlowValueView::Boolean(false),
        Access::ReadWrite,
        ParameterType::Boolean,
    )
}

/// The model of the global now-playing parameter.
pub open spec fn now_playing_view(number: u32) -> ElementView {
    parameter_view(
        number,
        "NowPlaying"@,
        "Currently playing cart"@,
        GlowValueView::String(Seq::empty()),
        Access::Read,
        ParameterType::String,
    )
}

/// Helper to build a cart-style provider tree.
pub struct CartTreeBuilder {
    root_node: Node,
}

fn text(s: &str) -> (r: String)
    ensures
        r@ == s@,
{
    String::from_str(s)
}

fn new_parameter(
    number: u32,
    identifier: &str,
    description: &str,
    value: GlowValue,
    access: Access,
    parameter_type: ParameterType,
) -> (e: TreeElement)
    ensures
        e@ == parameter_view(number, identifier@, description@, value@, access, parameter_type),
{
    TreeElement::Parameter(
        Parameter {
            number,
            identifier: text(identifier),
            description: Some(text(description)),
            value,
            access,
            parameter_type,
        },
    )
}

impl CartTreeBuilder {
    /// The root node built so far.
    pub closed spec fn root(&self) -> NodeView {
        self.root_node@
    }

    /// Create a new cart tree builder with the given root identifier and number.
    pub fn new(root_identifier: &str, root_number: u32) -> (b: Self)
        ensures
            b.root() == (NodeView {
                number: root_number,
                identifier: root_identifier@,
                description: None,
                children: Seq::empty(),
            }),
    {
        let b = Self {
            root_node: Node {
                number: root_number,
                identifier: text(root_identifier),
                description: None,
                children: Vec::new(),
            },
        };
        assert(b.root().children =~= Seq::<ElementView>::empty());
        b
    }

    /// Add a cart slot with trigger and status parameters.
    pub fn add_cart(&mut self, number: u32, identifier: &str, name: &str)
        ensures
            final(self).root() == (NodeView {
                children: old(self).root().children.push(cart_view(number, identifier@, name@)),
                ..old(self).root()
            }),
    {
        let mut cart = Node {
            number,
            identifier: text(identifier),
            description: None,
            children: Vec::new(),
        };

        cart.children.push(
            new_parameter(
                1,
                "Name",
                "Cart name",
                GlowValue::String(text(name)),
                Access::Read,
                ParameterType::String,
            ),
        );

        cart.children.push(
            new_parameter(
                2,
                "Trigger",
                "Pulse to trigger",
                GlowValue::Boolean(false),
                Access::ReadWrite,
                ParameterType::Boolean,
            ),
        );

        cart.children.push(
            new_parameter(
                3,
                "Status",
                "Playback status",
                GlowValue::Integer(0),
                Access::Read,
                ParameterType::Integer,
            ),
        );
        proof {
            lemma_view_facts();
            assert(cart@.children =~= (cart_view(number, identifier@, name@)->Node_0).children);
        }
        self.root_node.children.push(TreeElement::Node(cart));
        assert(self.root().children =~= old(self).root().children.push(
            cart_view(number, identifier@, name@),
        ));
    }

    /// Add a global stop-all parameter.
    pub fn add_global_stop(&mut self, number: u32)
        ensures
            final(self).root() == (NodeView {
                children: old(self).root().children.push(stop_all_view(number)),
                ..old(self).root()
            }),
    {
        self.root_node.children.push(
            new_parameter(
                number,
                "StopAll",
                "Pulse to stop all",
                GlowValue::Boolean(false),
                Access::ReadWrite,
                ParameterType::Boolean,
            ),
        );
        assert(self.root().children =~= old(self).root().children.push(stop_all_view(number)));
    }

    /// Add a global now-playing parameter.
    pub fn add_global_now_playing(&mut self, number: u32)
        ensures
            final(self).root() == (NodeView {
                children: old(self).root().children.push(now_playing_view(number)),
                ..old(self).root()
            }),
    {
        self.root_node.children.push(
            new_parameter(
                number,
                "NowPlaying",
                "Currently playing cart",
                GlowValue::String(String::new()),
                Access::Read,
                ParameterType::String,
            ),
        );
        assert(self.root().children =~= old(self).root().children.push(now_playing_view(number)));
    }

    /// Build the tree.
    pub fn build(self) -> (t: Tree)
        ensures
            t@ == seq![ElementView::Node(self.root())],
    {
        let t = Tree { root: vec![TreeElement::Node(self.root_node)] };
        proof {
            lemma_view_facts();
        }
        assert(t@ =~= seq![ElementView::Node(self.root())]);
        t
    }
}

/// When no element of `s[start..end]` carries `number`, searching from `start`
/// finds what searching from `end` finds.
pub proof fn lemma_index_of_number_skip(s: Seq<ElementView>, number: u32, start: int, end: int)
    requires
        0 <= start <= end <= s.len(),
        forall|j: int| start <= j < end ==> number_of(#[trigger] s[j]) != number,
    ensures
        index_of_number_from(s, number, start) == index_of_number_from(s, number, end),
    decreases end - start,
{
    if start < end {
        lemma_index_of_number_skip(s, number, start + 1, end);
    }
}

/// In a tree whose only root element is the node `root`, the path made of
/// the root's number and the number of one of its children leads to that
/// child, unless an earlier child has the same number.
pub proof fn lemma_root_child_path(root: NodeView, k: int)
    requires
        0 <= k < root.children.len(),
        forall|j: int|
            0 <= j < k ==> number_of(#[trigger] root.children[j]) != number_of(root.children[k]),
    ensures
        find_in(seq![ElementView::Node(root)], seq![root.number]) == Some(ElementView::Node(root)),
        find_in(seq![ElementView::Node(root)], seq![root.number, number_of(root.children[k])])
            == Some(root.children[k]),
{
    let tree = seq![ElementView::Node(root)];
    let n = number_of(root.children[k]);
    assert(index_of_number(tree, root.number) == Some(0int));
    lemma_index_of_number_skip(root.children, n, 0, k);
    assert(index_of_number(root.children, n) == Some(k));
    assert(seq![root.number, n].drop_first() =~= seq![n]);
    assert(find_in(root.children, seq![n]) == Some(root.children[k]));
}

/// In a built cart tree, the path root number, cart number, and 1, 2 or 3
/// leads to the cart's `Name`, `Trigger` or `Status` parameter, for every cart
/// whose number no earlier child of the root carries.
pub proof fn lemma_cart_paths(
    root: NodeView,
    k: int,
    number: u32,
    identifier: Seq<char>,
    name: Seq<char>,
)
    requires
        0 <= k < root.children.len(),
        root.children[k] == cart_view(number, identifier, name),
        forall|j: int| 0 <= j < k ==> number_of(#[trigger] root.children[j]) != number,
    ensures
        find_in(seq![ElementView::Node(root)], seq![root.number, number]) == Some(
            cart_view(number, identifier, name),
        ),
        find_in(seq![ElementView::Node(root)], seq![root.number, number, 1]) == Some(
            (cart_view(number, identifier, name)->Node_0).children[0],
        ),
        find_in(seq![ElementView::Node(root)], seq![root.number, number, 2]) == Some(
            (cart_view(number, identifier, name)->Node_0).children[1],
        ),
        find_in(seq![ElementView::Node(root)], seq![root.number, number, 3]) == Some(
            (cart_view(number, identifier, name)->Node_0).children[2],
        ),
{
    let tree = seq![ElementView::Node(root)];
    let cart = cart_view(number, identifier, name)->Node_0;
    lemma_root_child_path(root, k);
    lemma_index_of_number_skip(root.children, number, 0, k);
    assert(index_of_number(tree, root.number) == Some(0int));
    assert(index_of_number(root.children, number) == Some(k));
    assert(number_of(cart.children[0]) == 1);
    assert(number_of(cart.children[1]) == 2);
    assert(number_of(cart.children[2]) == 3);
    lemma_index_of_number_skip(cart.children, 2, 0, 1);
    lemma_index_of_number_skip(cart.children, 3, 0, 2);
    assert(index_of_number(cart.children, 1) == Some(0int));
    assert(index_of_number(cart.children, 2) == Some(1int));
    assert(index_of_number(cart.children, 3) == Some(2int));
    let p1 = seq![root.number, number, 1u32];
    let p2 = seq![root.number, number, 2u32];
    let p3 = seq![root.number, number, 3u32];
    assert(p1.drop_first() =~= seq![number, 1u32]);
    assert(p1.drop_first().drop_first() =~= seq![1u32]);
    assert(p2.drop_first() =~= seq![number, 2u32]);
    assert(p2.drop_first().drop_first() =~= seq![2u32]);
    assert(p3.drop_first() =~= seq![number, 3u32]);
    assert(p3.drop_first().drop_first() =~= seq![3u32]);
    assert(find_in(cart.children, seq![1u32]) == Some(cart.children[0]));
    assert(find_in(cart.children, seq![2u32]) == Some(cart.children[1]));
    assert(find_in(cart.children, seq![3u32]) == Some(cart.children[2]));
    assert(find_in(root.children, seq![number, 1u32]) == Some(cart.children[0]));
    assert(find_in(root.children, seq![number, 2u32]) == Some(cart.children[1]));
    assert(find_in(root.children, seq![number, 3u32]) == Some(cart.children[2]));
}

// ---------------------------------------------------------------------------
// Copies
// ---------------------------------------------------------------------------

impl Clone for Parameter {
    fn clone(&self) -> (r: Self)
        ensures
            r@ == self@,
    {
        Parameter {
            number: self.number,
            identifier: self.identifier.clone(),
            description: self.description.clone(),
            value: self.value.clone(),
            access: self.access,
            parameter_type: self.parameter_type,
        }
    }
}

fn clone_element(e: &TreeElement) -> (r: TreeElement)
    ensures
        r@ == e@,
    decreases e,
{
    proof {
        lemma_view_facts();
    }
    match e {
        TreeElement::Node(n) => {
            let mut children: Vec<TreeElement> = Vec::new();
            let mut i: usize = 0;
            while i < n.children.len()
                invariant
                    *e == TreeElement::Node(*n),
                    i <= n.children@.len(),
                    children@.len() == i,
                    forall|j: int|
                        0 <= j < i ==> #[trigger] element_view(children@[j]) == element_view(
                            n.children@[j],
                        ),
                decreases n.children@.len() - i,
            {
                proof {
                    let ghost node: Node = *n;
                    assert((*e)->Node_0 == node);
                    assert(decreases_to!(*e => (*e)->Node_0));
                    assert(decreases_to!(node => node.children));
                    assert(decreases_to!(node.children => node.children@));
                    assert(decreases_to!(n.children@ => n.children@[i as int]));
                }
                children.push(clone_element(&n.children[i]));
                i += 1;
            }
            let copy = Node {
                number: n.number,
                identifier: n.identifier.clone(),
                description: n.description.clone(),
                children,
            };
            assert(elements_view(copy.children@) =~= elements_view(n.children@));
            TreeElement::Node(copy)
        },
        TreeElement::Parameter(p) => TreeElement::Parameter(p.clone()),
    }
}

impl Clone for TreeElement {
    fn clone(&self) -> (r: Self)
        ensures
            r@ == self@,
    {
        clone_element(self)
    }
}

fn clone_elements(s: &Vec<TreeElement>) -> (r: Vec<TreeElement>)
    ensures
        elements_view(r@) == elements_view(s@),
{
    let mut out: Vec<TreeElement> = Vec::new();
    let mut i: usize = 0;
    while i < s.len()
        invariant
            i <= s@.len(),
            out@.len() == i,
            forall|j: int| 0 <= j < i ==> #[trigger] element_view(out@[j]) == element_view(s@[j]),
        decreases s@.len() - i,
    {
        out.push(clone_element(&s[i]));
        i += 1;
    }
    assert(elements_view(out@) =~= elements_view(s@));
    out
}

impl Clone for Node {
    fn clone(&self) -> (r: Self)
        ensures
            r@ == self@,
    {
        Node {
            number: self.number,
            identifier: self.identifier.clone(),
            description: self.description.clone(),
            children: clone_elements(&self.children),
        }
    }
}

impl Clone for Tree {
    fn clone(&self) -> (r: Self)
        ensures
            r@ == self@,
    {
        Tree { root: clone_elements(&self.root) }
    }
}

impl Default for Tree {
    fn default() -> (t: Self)
        ensures
            t@ == Seq::<ElementView>::empty(),
    {
        Tree::new()
    }
}

} // verus!
