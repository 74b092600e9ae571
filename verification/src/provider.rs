//! Ember+ provider state machine.
//!
//! A [`ProviderSession`] answers the Glow commands of one consumer connection
//! from the provider's [`Tree`]. Its answers are [`Response`]s: the elements
//! that the connection's writer encodes as Glow `QualifiedNode` and
//! `QualifiedParameter` objects in S101 frames.
use crate::error::{Error, Result};
use crate::glow::{Access, Command, GlowValue, GlowValueView, NodeInfo, ParameterInfo};
use crate::handler::Handler;
use crate::glow::ParameterType;
use crate::tree::{
    cart_view, element_view, elements_view, find_in, lemma_cart_paths, lemma_find_after_replace,
    lemma_find_number, lemma_root_child_path, lemma_view_facts, number_of, opt_text,
    paths_refreshed, refresh_tree_values, refreshed_all, replaced_at, same_shapes, stop_all_view, ElementView,
    NodeView, ParameterView, Tree, TreeElement,
};
use vstd::prelude::*;

verus! {

/// One element that a session answers with, and the path it is reported at.
#[derive(Debug)]
pub enum Response {
    /// A node, to be encoded as a Glow `QualifiedNode`.
    Node {
        /// Path of the node.
        path: Vec<u32>,
        /// What is reported of the node.
        info: NodeInfo,
    },
    /// A parameter, to be encoded as a Glow `QualifiedParameter`.
    Parameter {
        /// Path of the parameter.
        path: Vec<u32>,
        /// What is reported of the parameter.
        info: ParameterInfo,
    },
}

// ---------------------------------------------------------------------------
// Model of the answers
// ---------------------------------------------------------------------------

/// `r` reports the element `e` at `path`: its identifier and description, and
/// for a parameter its value, access and type.
pub open spec fn describes(r: Response, path: Seq<u32>, e: ElementView) -> bool {
    match e {
        ElementView::Node(n) => match r {
            Response::Node { path: p, info } => {
                &&& p@ == path
                &&& info.identifier@ == n.identifier
                &&& opt_text(info.description) == n.description
            },
            Response::Parameter { .. } => false,
        },
        ElementView::Parameter(q) => match r {
            Response::Parameter { path: p, info } => {
                &&& p@ == path
                &&& info.identifier@ == q.identifier
                &&& opt_text(info.description) == q.description
                &&& info.value@ == q.value
                &&& info.access == q.access
                &&& info.parameter_type == q.parameter_type
            },
            Response::Node { .. } => false,
        },
    }
}

/// The responses report, in order, the elements of `targets` at their paths.
pub open spec fn describes_all(rs: Seq<Response>, targets: Seq<(Seq<u32>, ElementView)>) -> bool {
    &&& rs.len() == targets.len()
    &&& forall|i: int|
        0 <= i < rs.len() ==> #[trigger] describes(rs[i], targets[i].0, targets[i].1)
}

/// What reporting the element at `path` yields: that element, or nothing
/// when no element is there.
pub open spec fn element_targets(tree: Seq<ElementView>, path: Seq<u32>) -> Seq<
    (Seq<u32>, ElementView),
> {
    match find_in(tree, path) {
        Some(e) => seq![(path, e)],
        None => Seq::empty(),
    }
}

/// What reporting each of `children` (the children of the node at `path`)
/// yields, child by child, each looked up again by its own path.
pub open spec fn children_targets(
    tree: Seq<ElementView>,
    path: Seq<u32>,
    children: Seq<ElementView>,
) -> Seq<(Seq<u32>, ElementView)>
    decreases children.len(),
{
    if children.len() == 0 {
        Seq::empty()
    } else {
        children_targets(tree, path, children.drop_last()) + element_targets(
            tree,
            path.push(number_of(children.last())),
        )
    }
}

/// What a `GetDirectory` for `path` is answered with. For the empty path:
/// the first root element, when it is a node. For the path of a node: each
/// of its children. For the path of a parameter: the parameter. Otherwise:
/// nothing.
pub open spec fn directory_targets(tree: Seq<ElementView>, path: Seq<u32>) -> Seq<
    (Seq<u32>, ElementView),
> {
    let root_part: Seq<(Seq<u32>, ElementView)> = if path.len() == 0 && tree.len() > 0
        && tree[0] is Node {
        seq![(path, tree[0])]
    } else {
        Seq::empty()
    };
    match find_in(tree, path) {
        Some(ElementView::Node(n)) => root_part + children_targets(tree, path, n.children),
        Some(ElementView::Parameter(_)) => element_targets(tree, path),
        None => root_part,
    }
}

/// A write of `value` at `path` is a pulse: a read/write parameter is there
/// and the value written is boolean `true`.
pub open spec fn is_pulse(tree: Seq<ElementView>, path: Seq<u32>, value: GlowValueView) -> bool {
    &&& find_in(tree, path) matches Some(ElementView::Parameter(p))
    &&& p.access == Access::ReadWrite
    &&& value == GlowValueView::Boolean(true)
}

/// The parameter at `path` once a pulse has been reset: the same parameter
/// holding boolean `false`.
pub open spec fn pulse_reset(tree: Seq<ElementView>, path: Seq<u32>) -> ElementView {
    match find_in(tree, path) {
        Some(ElementView::Parameter(p)) => ElementView::Parameter(
            ParameterView { value: GlowValueView::Boolean(false), ..p },
        ),
        _ => arbitrary(),
    }
}

/// How a write of `value` at `path` ends, once the handler has answered
/// `handled`: the handler's error is passed on and nothing changes; after a
/// pulse the parameter is reset to `false` and reported so; any other write
/// changes nothing and is answered with nothing.
pub open spec fn set_value_outcome(
    old_tree: Seq<ElementView>,
    new_tree: Seq<ElementView>,
    path: Seq<u32>,
    value: GlowValueView,
    handled: Result<()>,
    res: Result<Vec<Response>>,
) -> bool {
    match handled {
        Err(e) => res == Err::<Vec<Response>, Error>(e) && new_tree == old_tree,
        Ok(_) => res matches Ok(v) && if is_pulse(old_tree, path, value) {
            &&& replaced_at(old_tree, new_tree, path, pulse_reset(old_tree, path))
            &&& describes_all(v@, seq![(path, pulse_reset(old_tree, path))])
        } else {
            &&& new_tree == old_tree
            &&& v@.len() == 0
        },
    }
}

/// How an invocation ends, once the handler has answered `handled`: its
/// error is passed on, and its results are dropped.
pub open spec fn invoke_outcome(
    handled: Result<Vec<GlowValue>>,
    res: Result<Vec<Response>>,
) -> bool {
    match handled {
        Err(e) => res == Err::<Vec<Response>, Error>(e),
        Ok(_) => res matches Ok(v) && v@.len() == 0,
    }
}

// ---------------------------------------------------------------------------
// Provider
// ---------------------------------------------------------------------------

/// Provider state: the element tree and the application's handler.
pub struct Provider<H: Handler> {
    tree: Tree,
    handler: H,
}

impl<H: Handler> Provider<H> {
    /// The model of the provider's tree.
    pub closed spec fn tree_view(&self) -> Seq<ElementView> {
        self.tree@
    }

    /// The provider's handler.
    pub closed spec fn handler_spec(&self) -> H {
        self.handler
    }

    /// Create a new provider with the given tree and handler.
    pub fn new(tree: Tree, handler: H) -> (p: Self)
        ensures
            p.tree_view() == tree@,
            p.handler_spec() == handler,
    {
        Self { tree, handler }
    }

    /// Create a new session for an individual consumer connection.
    pub fn session(&self) -> (s: ProviderSession)
        ensures
            s.subscribed() == Set::<Seq<u32>>::empty(),
    {
        let s = ProviderSession { subscriptions: Vec::new() };
        assert(s.subscribed() =~= Set::<Seq<u32>>::empty());
        s
    }

    /// Update tree values from the handler: every parameter takes the value
    /// that the handler reports for its full path (or keeps its value when
    /// none is reported), and the tree keeps its shape.
    pub fn refresh(&mut self) -> (r: Result<()>)
        ensures
            r is Ok,
            refreshed_all(
                old(self).tree_view(),
                final(self).tree_view(),
                Seq::empty(),
                &old(self).handler_spec(),
            ),
            paths_refreshed(
                old(self).tree_view(),
                final(self).tree_view(),
                Seq::empty(),
                &old(self).handler_spec(),
            ),
            same_shapes(old(self).tree_view(), final(self).tree_view()),
            final(self).handler_spec() == old(self).handler_spec(),
    {
        refresh_tree_values(&mut self.tree, &self.handler);
        Ok(())
    }
}

// ---------------------------------------------------------------------------
// Session
// ---------------------------------------------------------------------------

/// A single consumer connection session.
pub struct ProviderSession {
    subscriptions: Vec<Vec<u32>>,
}

fn paths_equal(a: &[u32], b: &[u32]) -> (r: bool)
    ensures
        r == (a@ == b@),
{
    if a.len() != b.len() {
        return false;
    }
    let mut i: usize = 0;
    while i < a.len()
        invariant
            i <= a@.len(),
            a@.len() == b@.len(),
            forall|j: int| 0 <= j < i ==> a@[j] == b@[j],
        decreases a.len() - i,
    {
        if a[i] != b[i] {
            return false;
        }
        i += 1;
    }
    assert(a@ =~= b@);
    true
}

fn node_response(path: &[u32], node: &crate::tree::Node) -> (r: Response)
    ensures
        describes(r, path@, ElementView::Node(node@)),
{
    Response::Node {
        path: vstd::slice::slice_to_vec(path),
        info: NodeInfo { identifier: node.identifier.clone(), description: node.description.clone() },
    }
}

/// Report the element at `path`, if there is one.
fn encode_element(tree: &Tree, path: &[u32]) -> (r: Vec<Response>)
    ensures
        describes_all(r@, element_targets(tree@, path@)),
{
    proof {
        lemma_view_facts();
    }
    let mut responses = Vec::new();
    match tree.find(path) {
        Some(TreeElement::Node(node)) => {
            responses.push(node_response(path, node));
        },
        Some(TreeElement::Parameter(param)) => {
            responses.push(
                Response::Parameter {
                    path: vstd::slice::slice_to_vec(path),
                    info: param.to_glow_info(),
                },
            );
        },
        None => {},
    }
    responses
}

fn handle_get_directory(tree: &Tree, path: &[u32]) -> (r: Vec<Response>)
    ensures
        describes_all(r@, directory_targets(tree@, path@)),
{
    proof {
        lemma_view_facts();
    }
    let mut responses: Vec<Response> = Vec::new();
    let ghost root_part: Seq<(Seq<u32>, ElementView)> = if path@.len() == 0 && tree@.len() > 0
        && tree@[0] is Node {
        seq![(path@, tree@[0])]
    } else {
        Seq::empty()
    };

    if path.len() == 0 && tree.root.len() > 0 {
        // Report the root node.
        if let TreeElement::Node(root) = &tree.root[0] {
            responses.push(node_response(path, root));
        }
    }
    assert(describes_all(responses@, root_part));

    let children = match tree.find(path) {
        Some(TreeElement::Node(node)) => &node.children,
        Some(TreeElement::Parameter(_)) => {
            // Single parameter: send it back.
            return encode_element(tree, path);
        },
        None => {
            return responses;
        },
    };
    let ghost kids = elements_view(children@);
    let ghost base = responses@;

    let mut i: usize = 0;
    while i < children.len()
        invariant
            i <= children@.len(),
            kids == elements_view(children@),
            directory_targets(tree@, path@) == root_part + children_targets(tree@, path@, kids),
            describes_all(base, root_part),
            responses@.len() >= base.len(),
            responses@.subrange(0, base.len() as int) == base,
            describes_all(
                responses@.subrange(base.len() as int, responses@.len() as int),
                children_targets(tree@, path@, kids.take(i as int)),
            ),
        decreases children.len() - i,
    {
        let mut child_path = vstd::slice::slice_to_vec(path);
        child_path.push(children[i].number());
        let mut more = encode_element(tree, child_path.as_slice());
        let ghost before = responses@;
        let ghost added = more@;
        responses.append(&mut more);
        proof {
            assert(kids.take(i + 1).drop_last() =~= kids.take(i as int));
            assert(kids.take(i + 1).last() == kids[i as int]);
            let done = before.subrange(base.len() as int, before.len() as int);
            let now = responses@.subrange(base.len() as int, responses@.len() as int);
            assert(now =~= done + added);
            assert(responses@.subrange(0, base.len() as int) =~= base);
        }
        i += 1;
    }
    proof {
        assert(kids.take(children@.len() as int) =~= kids);
        assert(responses@ =~= base + responses@.subrange(base.len() as int, responses@.len() as int));
    }
    responses
}

/// Reset a pulse parameter to `false` and report it; any other write changes
/// nothing and is answered with nothing.
fn apply_pulse(tree: &mut Tree, path: &[u32], value: &GlowValue) -> (r: Vec<Response>)
    ensures
        is_pulse(old(tree)@, path@, value@) ==> {
            &&& replaced_at(old(tree)@, final(tree)@, path@, pulse_reset(old(tree)@, path@))
            &&& describes_all(r@, seq![(path@, pulse_reset(old(tree)@, path@))])
        },
        !is_pulse(old(tree)@, path@, value@) ==> final(tree)@ == old(tree)@ && r@.len() == 0,
{
    proof {
        lemma_view_facts();
    }
    let pulse = match tree.find(path) {
        Some(TreeElement::Parameter(param)) => param.access == Access::ReadWrite && matches!(
            value,
            GlowValue::Boolean(true)
        ),
        _ => false,
    };
    if !pulse {
        return Vec::new();
    }
    let mut responses: Vec<Response> = Vec::new();
    match tree.find_parameter_mut(path) {
        Some(param) => {
            // Reset the pulse and report the parameter as it now stands.
            param.value = GlowValue::Boolean(false);
            let info = param.to_glow_info();
            responses.push(Response::Parameter { path: vstd::slice::slice_to_vec(path), info });
        },
        None => {},
    }
    responses
}

/// Some entry of `s` holds the path `p`.
pub open spec fn contains_path(s: Seq<Vec<u32>>, p: Seq<u32>) -> bool {
    exists|j: int| 0 <= j < s.len() && #[trigger] s[j]@ == p
}

proof fn lemma_contains_path_push(s: Seq<Vec<u32>>, x: Vec<u32>)
    ensures
        forall|p: Seq<u32>|
            #[trigger] contains_path(s.push(x), p) == (contains_path(s, p) || x@ == p),
{
    assert forall|p: Seq<u32>| #[trigger]
        contains_path(s.push(x), p) == (contains_path(s, p) || x@ == p) by {
        if contains_path(s.push(x), p) {
            let j = choose|j: int| 0 <= j < s.push(x).len() && #[trigger] s.push(x)[j]@ == p;
            if j < s.len() {
                assert(s[j]@ == p);
            }
        }
        if contains_path(s, p) {
            let j = choose|j: int| 0 <= j < s.len() && #[trigger] s[j]@ == p;
            assert(s.push(x)[j]@ == p);
        }
        if x@ == p {
            assert(s.push(x)[s.len() as int]@ == p);
        }
    }
}

impl ProviderSession {
    /// The paths this session is subscribed to.
    pub closed spec fn subscribed(&self) -> Set<Seq<u32>> {
        Set::new(|p: Seq<u32>| contains_path(self.subscriptions@, p))
    }

    fn is_subscribed(&self, path: &[u32]) -> (r: bool)
        ensures
            r == self.subscribed().contains(path@),
    {
        let mut i: usize = 0;
        while i < self.subscriptions.len()
            invariant
                i <= self.subscriptions@.len(),
                forall|j: int| 0 <= j < i ==> #[trigger] self.subscriptions@[j]@ != path@,
            decreases self.subscriptions.len() - i,
        {
            if paths_equal(self.subscriptions[i].as_slice(), path) {
                return true;
            }
            i += 1;
        }
        false
    }

    fn handle_subscribe(&mut self, tree: &Tree, path: &[u32]) -> (r: Vec<Response>)
        ensures
            describes_all(r@, element_targets(tree@, path@)),
            final(self).subscribed() == old(self).subscribed().insert(path@),
    {
        if !self.is_subscribed(path) {
            let entry = vstd::slice::slice_to_vec(path);
            proof {
                lemma_contains_path_push(self.subscriptions@, entry);
            }
            self.subscriptions.push(entry);
        }
        assert(self.subscribed() =~= old(self).subscribed().insert(path@));
        encode_element(tree, path)
    }

    fn handle_unsubscribe(&mut self, path: &[u32])
        ensures
            final(self).subscribed() == old(self).subscribed().remove(path@),
    {
        let mut kept: Vec<Vec<u32>> = Vec::new();
        let mut i: usize = 0;
        let n = self.subscriptions.len();
        let ghost subs = self.subscriptions@;
        while i < n
            invariant
                n == subs.len(),
                subs == self.subscriptions@,
                i <= n,
                forall|p: Seq<u32>|
                    #[trigger] contains_path(kept@, p) == (p != path@ && contains_path(
                        subs.take(i as int),
                        p,
                    )),
            decreases n - i,
        {
            proof {
                assert(subs.take(i + 1) =~= subs.take(i as int).push(subs[i as int]));
                lemma_contains_path_push(subs.take(i as int), subs[i as int]);
            }
            if !paths_equal(self.subscriptions[i].as_slice(), path) {
                let entry = vstd::slice::slice_to_vec(self.subscriptions[i].as_slice());
                proof {
                    lemma_contains_path_push(kept@, entry);
                }
                kept.push(entry);
            }
            i += 1;
        }
        assert(subs.take(n as int) =~= subs);
        self.subscriptions = kept;
        assert(self.subscribed() =~= old(self).subscribed().remove(path@));
    }

    /// Handle a decoded Glow command and return the elements to answer with.
    ///
    /// Errors come only from the handler, for `SetValue` and `Invoke`, and are
    /// passed on as the handler returned them.
    pub fn handle_command<H: Handler>(&mut self, provider: &mut Provider<H>, command: &Command) -> (res:
        Result<Vec<Response>>)
        ensures
            final(provider).handler_spec() == old(provider).handler_spec(),
            match *command {
                Command::GetDirectory { path, .. } => {
                    &&& res matches Ok(v) && describes_all(
                        v@,
                        directory_targets(old(provider).tree_view(), path@),
                    )
                    &&& final(self).subscribed() == old(self).subscribed()
                    &&& final(provider).tree_view() == old(provider).tree_view()
                },
                Command::Subscribe { path } => {
                    &&& res matches Ok(v) && describes_all(
                        v@,
                        element_targets(old(provider).tree_view(), path@),
                    )
                    &&& final(self).subscribed() == old(self).subscribed().insert(path@)
                    &&& final(provider).tree_view() == old(provider).tree_view()
                },
                Command::Unsubscribe { path } => {
                    &&& res matches Ok(v) && v@.len() == 0
                    &&& final(self).subscribed() == old(self).subscribed().remove(path@)
                    &&& final(provider).tree_view() == old(provider).tree_view()
                },
                Command::SetValue { path, value } => {
                    &&& exists|s: &[u32], handled: Result<()>|
                        #![trigger call_ensures(H::on_value_change, (&old(provider).handler_spec(), s, &value), handled)]
                        s@ == path@ && call_ensures(
                            H::on_value_change,
                            (&old(provider).handler_spec(), s, &value),
                            handled,
                        ) && set_value_outcome(
                            old(provider).tree_view(),
                            final(provider).tree_view(),
                            path@,
                            value@,
                            handled,
                            res,
                        )
                    &&& final(self).subscribed() == old(self).subscribed()
                },
                Command::Invoke { path, .. } => {
                    &&& exists|s: &[u32], args: &[GlowValue], handled: Result<Vec<GlowValue>>|
                        #![trigger call_ensures(H::on_invoke, (&old(provider).handler_spec(), s, args), handled)]
                        s@ == path@ && args@.len() == 0 && call_ensures(
                            H::on_invoke,
                            (&old(provider).handler_spec(), s, args),
                            handled,
                        ) && invoke_outcome(handled, res)
                    &&& final(self).subscribed() == old(self).subscribed()
                    &&& final(provider).tree_view() == old(provider).tree_view()
                },
                Command::Other => {
                    &&& res matches Ok(v) && v@.len() == 0
                    &&& final(self).subscribed() == old(self).subscribed()
                    &&& final(provider).tree_view() == old(provider).tree_view()
                },
            },
    {
        match command {
            Command::GetDirectory { path, .. } => Ok(
                handle_get_directory(&provider.tree, path.as_slice()),
            ),
            Command::Subscribe { path } => Ok(
                self.handle_subscribe(&provider.tree, path.as_slice()),
            ),
            Command::Unsubscribe { path } => {
                self.handle_unsubscribe(path.as_slice());
                Ok(Vec::new())
            },
            Command::SetValue { path, value } => {
                // Hand the write to the application first; its error is passed on.
                let handled = provider.handler.on_value_change(path.as_slice(), value);
                match handled {
                    Err(e) => Err(e),
                    Ok(()) => Ok(apply_pulse(&mut provider.tree, path.as_slice(), value)),
                }
            },
            Command::Invoke { path, .. } => {
                let no_args: Vec<GlowValue> = Vec::new();
                let handled = provider.handler.on_invoke(path.as_slice(), no_args.as_slice());
                match handled {
                    Err(e) => Err(e),
                    Ok(_) => Ok(Vec::new()),
                }
            },
            Command::Other => Ok(Vec::new()),
        }
    }
}

/// A subscription followed by an unsubscription of the same path leaves the
/// session subscribed to what it was subscribed to before, less that path.
pub proof fn lemma_subscribe_then_unsubscribe(subscribed: Set<Seq<u32>>, path: Seq<u32>)
    ensures
        subscribed.insert(path).remove(path) == subscribed.remove(path),
{
    assert(subscribed.insert(path).remove(path) =~= subscribed.remove(path));
}

/// A `GetDirectory` for the empty path is answered with the first root
/// element alone, at the empty path, when it is a node, and with nothing
/// otherwise: never with more than one element.
pub proof fn lemma_directory_of_empty_path(tree: Seq<ElementView>)
    ensures
        directory_targets(tree, Seq::empty()).len() <= 1,
        directory_targets(tree, Seq::empty()) == if tree.len() > 0 && tree[0] is Node {
            seq![(Seq::<u32>::empty(), tree[0])]
        } else {
            Seq::<(Seq<u32>, ElementView)>::empty()
        },
{
}

/// A pulse is reset in place: after a pulse write that the handler accepted,
/// the parameter at the path differs from what it was only in holding
/// `false`, the answer reports it so, and a second press is a pulse again.
pub proof fn lemma_pulse_reset_changes_only_the_value(
    old_tree: Seq<ElementView>,
    new_tree: Seq<ElementView>,
    path: Seq<u32>,
    res: Result<Vec<Response>>,
)
    requires
        is_pulse(old_tree, path, GlowValueView::Boolean(true)),
        set_value_outcome(old_tree, new_tree, path, GlowValueView::Boolean(true), Ok(()), res),
    ensures
        ({
            let p = find_in(old_tree, path)->0->Parameter_0;
            &&& find_in(new_tree, path) matches Some(ElementView::Parameter(q)) && {
                &&& q.number == p.number
                &&& q.identifier == p.identifier
                &&& q.description == p.description
                &&& q.access == p.access
                &&& q.parameter_type == p.parameter_type
                &&& q.value == GlowValueView::Boolean(false)
                &&& res matches Ok(v) && v@.len() == 1 && describes(
                    v@[0],
                    path,
                    ElementView::Parameter(q),
                )
            }
            &&& is_pulse(new_tree, path, GlowValueView::Boolean(true))
        }),
{
    let p = find_in(old_tree, path)->0->Parameter_0;
    let e = pulse_reset(old_tree, path);
    lemma_find_number(old_tree, path);
    lemma_find_after_replace(old_tree, new_tree, path, e);
    let v = res->Ok_0;
    let targets = seq![(path, e)];
    assert(describes(v@[0], targets[0].0, targets[0].1));
}

/// The stop-all parameter of a cart tree is a pulse: a read/write boolean
/// that holds `false`, so that writing `true` to it is a pulse.
pub proof fn lemma_global_stop_is_pulse(root: NodeView, k: int, number: u32)
    requires
        0 <= k < root.children.len(),
        root.children[k] == stop_all_view(number),
        forall|j: int| 0 <= j < k ==> number_of(#[trigger] root.children[j]) != number,
    ensures
        find_in(seq![ElementView::Node(root)], seq![root.number, number]) matches Some(
            ElementView::Parameter(p),
        ) && p.number == number && p.identifier == "StopAll"@ && p.access == Access::ReadWrite
            && p.parameter_type
            == ParameterType::Boolean && p.value == GlowValueView::Boolean(false),
        is_pulse(
            seq![ElementView::Node(root)],
            seq![root.number, number],
            GlowValueView::Boolean(true),
        ),
{
    lemma_root_child_path(root, k);
}

/// The trigger of each cart is a pulse: a read/write boolean that holds
/// `false`, so that writing `true` to it is a pulse.
pub proof fn lemma_cart_trigger_is_pulse(
    root: NodeView,
    k: int,
    number: u32,
    identifier: Seq<char>,
    name: Seq<char>,
)
    requires
        0 <= k < root.children.len(),
        root.children[k] == cart_view(number, identifier, name),
        forall|j: int| 0 <= j < k ==> number_of(#[trigger] root.children[j]) != number,
    ensures
        find_in(seq![ElementView::Node(root)], seq![root.number, number, 2]) matches Some(
            ElementView::Parameter(p),
        ) && p.number == 2 && p.identifier == "Trigger"@ && p.access == Access::ReadWrite
            && p.parameter_type
            == ParameterType::Boolean && p.value == GlowValueView::Boolean(false),
        is_pulse(
            seq![ElementView::Node(root)],
            seq![root.number, number, 2],
            GlowValueView::Boolean(true),
        ),
{
    lemma_cart_paths(root, k, number, identifier, name);
}

} // verus!
