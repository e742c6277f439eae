//! The route table: one endpoint per pattern shape, matched through a
//! prefix tree of the `path_tree` crate.

use vstd::prelude::*;
use path_tree::PathTree;
use crate::params::{pairs_map, ParameterMap};
use crate::pattern::{is_valid_pattern, same_chars, shape, shape_of, valid_pattern, PatternError};

verus! {

#[verifier::external_type_specification]
#[verifier::external_body]
#[verifier::reject_recursive_types(T)]
pub struct ExPathTree<T>(PathTree<T>);

/// The routes inserted into a tree, oldest first. A tree is built only by
/// `PathTree::new` and `PathTree::insert`, so its state is a function of them.
pub uninterp spec fn tree_routes(t: PathTree<usize>) -> Seq<(Seq<char>, usize)>;

/// What `PathTree::find` answers for `path` on the tree built from `routes`:
/// the value stored for the matching route and the pairs of parameter name
/// and bound segment, in the order of the route's parameters.
pub uninterp spec fn tree_match(routes: Seq<(Seq<char>, usize)>, path: Seq<char>) -> Option<
    (usize, Seq<(Seq<char>, Seq<char>)>),
>;

/// The pairs of a `Vec` of string pairs, as character sequences.
pub open spec fn pairs_view(v: Seq<(String, String)>) -> Seq<(Seq<char>, Seq<char>)> {
    v.map_values(|e: (String, String)| (e.0@, e.1@))
}

/// Relies on `PathTree::new`: a tree that holds no route.
#[verifier::external_body]
fn empty_tree() -> (r: PathTree<usize>)
    ensures
        tree_routes(r) == Seq::<(Seq<char>, usize)>::empty(),
{
    PathTree::new()
}

/// Relies on `PathTree::insert`: it adds one route. It slices the pattern by
/// character position, which is sound on ASCII text, which a valid pattern is.
#[verifier::external_body]
fn tree_insert(t: &mut PathTree<usize>, pattern: &str, slot: usize)
    requires
        valid_pattern(pattern@),
    ensures
        tree_routes(*final(t)) == tree_routes(*old(t)).push((pattern@, slot)),
{
    t.insert(pattern, slot);
}

/// Relies on `PathTree::find`: its answer depends on the routes inserted and
/// on the path alone, and a value it returns is one that was inserted.
#[verifier::external_body]
fn tree_find(t: &PathTree<usize>, path: &str) -> (r: Option<(usize, Vec<(String, String)>)>)
    ensures
        match r {
            None => tree_match(tree_routes(*t), path@) is None,
            Some((slot, pairs)) => {
                &&& tree_match(tree_routes(*t), path@) == Some((slot, pairs_view(pairs@)))
                &&& exists|i: int|
                    0 <= i < tree_routes(*t).len() && #[trigger] tree_routes(*t)[i].1 == slot
            },
        },
{
    t.find(path).map(
        |(slot, pairs)|
            (*slot, pairs.into_iter().map(|(k, v)| (k.to_string(), v.to_string())).collect()),
    )
}

/// No two entries share a shape.
pub open spec fn distinct_shapes<E>(s: Seq<(Seq<char>, E)>) -> bool {
    forall|i: int, j: int|
        0 <= i < s.len() && 0 <= j < s.len() && i != j ==> shape(#[trigger] s[i].0) != shape(
            #[trigger] s[j].0,
        )
}

/// Some entry has the shape of `p`.
pub open spec fn has_shape<E>(s: Seq<(Seq<char>, E)>, p: Seq<char>) -> bool {
    exists|i: int| 0 <= i < s.len() && shape(#[trigger] s[i].0) == shape(p)
}

/// The slot that registering `p` takes: that of the entry with the same
/// shape, or a new one at the end.
pub open spec fn slot_for<E>(s: Seq<(Seq<char>, E)>, p: Seq<char>) -> int {
    if has_shape(s, p) {
        choose|i: int| 0 <= i < s.len() && shape(#[trigger] s[i].0) == shape(p)
    } else {
        s.len() as int
    }
}

/// The entries after registering `p` with endpoint `e`: the entry of the
/// same shape is replaced in place, or the new one comes last.
pub open spec fn after_register<E>(s: Seq<(Seq<char>, E)>, p: Seq<char>, e: E) -> Seq<
    (Seq<char>, E),
> {
    if has_shape(s, p) {
        s.update(slot_for(s, p), (p, e))
    } else {
        s.push((p, e))
    }
}

/// One registered route.
pub struct Route<E> {
    pattern: String,
    shape: Vec<char>,
    endpoint: E,
}

/// A table of routes: a pattern and its endpoint per slot, at most one per
/// shape, and the prefix tree that maps request paths to slots.
pub struct RouteTable<E> {
    tree: PathTree<usize>,
    routes: Vec<Route<E>>,
}

impl<E> RouteTable<E> {
    /// The registered patterns with their endpoints, by slot.
    pub closed spec fn view(&self) -> Seq<(Seq<char>, E)> {
        self.routes@.map_values(|r: Route<E>| (r.pattern@, r.endpoint))
    }

    /// The routes handed to the prefix tree, oldest first.
    pub closed spec fn history(&self) -> Seq<(Seq<char>, usize)> {
        tree_routes(self.tree)
    }

    /// The table's invariant.
    pub closed spec fn wf(&self) -> bool {
        &&& forall|i: int|
            0 <= i < self.routes@.len() ==> {
                &&& (#[trigger] self.routes@[i]).shape@ == shape(self.routes@[i].pattern@)
                &&& valid_pattern(self.routes@[i].pattern@)
            }
        &&& distinct_shapes(self@)
        &&& forall|j: int|
            0 <= j < self.history().len() ==> (#[trigger] self.history()[j]).1 < self.routes@.len()
        &&& forall|i: int| 0 <= i < self@.len() ==> valid_pattern(#[trigger] self@[i].0)
    }

    /// An empty table.
    pub fn new() -> (r: RouteTable<E>)
        ensures
            r.wf(),
            r@ == Seq::<(Seq<char>, E)>::empty(),
            r.history() == Seq::<(Seq<char>, usize)>::empty(),
    {
        let r = RouteTable { tree: empty_tree(), routes: Vec::new() };
        assert(r@ =~= Seq::<(Seq<char>, E)>::empty());
        r
    }

    /// The number of slots.
    pub fn len(&self) -> (r: usize)
        ensures
            r == self@.len(),
    {
        self.routes.len()
    }

    /// The endpoint in `slot`.
    pub fn endpoint(&self, slot: usize) -> (r: &E)
        requires
            slot < self@.len(),
        ensures
            *r == self@[slot as int].1,
    {
        &self.routes[slot].endpoint
    }

    /// The pattern in `slot`.
    pub fn pattern(&self, slot: usize) -> (r: &str)
        requires
            slot < self@.len(),
        ensures
            r@ == self@[slot as int].0,
    {
        self.routes[slot].pattern.as_str()
    }

    /// Registers `endpoint` for `pattern`. A malformed pattern is refused and
    /// leaves the table as it was. Otherwise the route takes the slot of the
    /// route of the same shape, whose pattern and endpoint it replaces, or a
    /// new slot at the end; the slot is returned.
    pub fn register(&mut self, pattern: &str, endpoint: E) -> (r: Result<usize, PatternError>)
        requires
            old(self).wf(),
            old(self)@.len() < usize::MAX,
        ensures
            final(self).wf(),
            r is Err <==> !valid_pattern(pattern@),
            r is Err ==> final(self)@ == old(self)@ && final(self).history() == old(self).history(),
            r matches Ok(slot) ==> {
                &&& slot == slot_for(old(self)@, pattern@)
                &&& final(self)@ == after_register(old(self)@, pattern@, endpoint)
                &&& final(self).history() == old(self).history().push((pattern@, slot))
            },
    {
        if !is_valid_pattern(pattern) {
            return Err(PatternError::Malformed);
        }
        let sh = shape_of(pattern);
        let ghost before = self@;
        let n = self.routes.len();
        let mut i: usize = 0;
        let mut found = false;
        while i < n && !found
            invariant
                n == self.routes@.len(),
                self.wf(),
                self@ == before,
                i <= n,
                sh@ == shape(pattern@),
                found ==> i < n && shape(before[i as int].0) == shape(pattern@),
                !found ==> forall|k: int| 0 <= k < i ==> shape(#[trigger] before[k].0) != shape(pattern@),
            decreases n - i + (if found { 0int } else { 1int }),
        {
            assert(self.routes@[i as int].shape@ == shape(before[i as int].0));
            if same_chars(&self.routes[i].shape, &sh) {
                found = true;
            } else {
                i = i + 1;
            }
        }
        proof {
            if i < n {
                assert(shape(before[i as int].0) == shape(pattern@));
                assert(has_shape(before, pattern@));
                assert(slot_for(before, pattern@) == i as int);
            } else {
                assert(!has_shape(before, pattern@));
            }
            lemma_register_keeps_shapes_distinct(before, pattern@, endpoint);
        }
        tree_insert(&mut self.tree, pattern, i);
        let route = Route { pattern: pattern.to_owned(), shape: sh, endpoint };
        if i < n {
            self.routes.set(i, route);
        } else {
            self.routes.push(route);
        }
        assert(self@ =~= after_register(before, pattern@, endpoint));
        proof {
            assert forall|k: int| 0 <= k < self.routes@.len() implies {
                &&& (#[trigger] self.routes@[k]).shape@ == shape(self.routes@[k].pattern@)
                &&& valid_pattern(self.routes@[k].pattern@)
            } by {
                if k != i as int {
                    assert(self.routes@[k] == old(self).routes@[k]);
                    assert(old(self).routes@[k].shape@ == shape(old(self).routes@[k].pattern@));
                }
            }
            assert forall|k: int| 0 <= k < self@.len() implies valid_pattern(#[trigger] self@[k].0) by {
                assert(self@[k].0 == self.routes@[k].pattern@);
            }
            assert forall|j: int| 0 <= j < self.history().len() implies (#[trigger] self.history()[j]).1
                < self.routes@.len() by {
                if j < old(self).history().len() {
                    assert(self.history()[j] == old(self).history()[j]);
                }
            }
        }
        Ok(i)
    }

    /// Finds the route for `path`: its slot and the parameters bound by the
    /// match, or `None` where no route matches.
    pub fn lookup(&self, path: &str) -> (r: Option<(usize, ParameterMap)>)
        requires
            self.wf(),
        ensures
            match tree_match(self.history(), path@) {
                None => r is None,
                Some((slot, pairs)) => r matches Some((s, params)) && s == slot && params.wf()
                    && params@ == pairs_map(pairs),
            },
            r matches Some((s, _)) ==> s < self@.len(),
    {
        match tree_find(&self.tree, path) {
            None => None,
            Some((slot, pairs)) => {
                let params = ParameterMap::from_pairs(pairs);
                Some((slot, params))
            },
        }
    }
}

/// Registering keeps shapes distinct: the table never holds two routes of
/// one shape.
pub proof fn lemma_register_keeps_shapes_distinct<E>(s: Seq<(Seq<char>, E)>, p: Seq<char>, e: E)
    requires
        distinct_shapes(s),
    ensures
        distinct_shapes(after_register(s, p, e)),
        after_register(s, p, e).len() == if has_shape(s, p) {
            s.len()
        } else {
            s.len() + 1
        },
        0 <= slot_for(s, p) < after_register(s, p, e).len(),
        after_register(s, p, e)[slot_for(s, p)] == (p, e),
{
    let t = after_register(s, p, e);
    let k = slot_for(s, p);
    assert forall|i: int, j: int|
        0 <= i < t.len() && 0 <= j < t.len() && i != j implies shape(#[trigger] t[i].0) != shape(
        #[trigger] t[j].0,
    ) by {
        if i != k && j != k {
            assert(t[i] == s[i] && t[j] == s[j]);
        } else if i == k {
            if j < s.len() {
                assert(t[j] == s[j]);
            }
        } else {
            if i < s.len() {
                assert(t[i] == s[i]);
            }
        }
    }
}

/// Registering two patterns of one shape in turn leaves the same entries as
/// registering the second alone: the second pattern and its endpoint hold the
/// slot that the first took, and no entry is duplicated.
pub proof fn lemma_last_registration_wins<E>(
    s: Seq<(Seq<char>, E)>,
    p: Seq<char>,
    q: Seq<char>,
    a: E,
    b: E,
)
    requires
        distinct_shapes(s),
        shape(p) == shape(q),
    ensures
        after_register(after_register(s, p, a), q, b) == after_register(s, q, b),
        slot_for(after_register(s, p, a), q) == slot_for(s, p),
        after_register(after_register(s, p, a), q, b).len() == after_register(s, p, a).len(),
        distinct_shapes(after_register(after_register(s, p, a), q, b)),
{
    let t = after_register(s, p, a);
    let k = slot_for(s, p);
    lemma_register_keeps_shapes_distinct(s, p, a);
    lemma_register_keeps_shapes_distinct(t, q, b);
    assert(has_shape(s, p) == has_shape(s, q));
    assert(slot_for(s, p) == slot_for(s, q));
    assert(shape(t[k].0) == shape(q));
    assert(has_shape(t, q));
    let j = slot_for(t, q);
    assert(shape(t[j].0) == shape(q));
    assert(j == k);
    assert(after_register(t, q, b) =~= after_register(s, q, b));
}

} // verus!
