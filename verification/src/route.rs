//! The method/path routing structure: one lookup tree per verb, each node
//! mapping a literal path segment to a child and carrying a handler.

use vstd::prelude::*;

use crate::bytes::{split1, split_on, vecs_view, SLASH};
use crate::error::ServerError;
use crate::message::{Request, RequestModel, Response};
use crate::method::HttpMethod;
use vstd::string::StringSliceAdditionalSpecFns;

verus! {

/// The contract a route handler meets: given a request, produce a response or
/// fail with the application's error kind. Handlers are plain copyable values
/// so the routing tree can hand them out by value. `post` is the relation
/// each handler's results satisfy; every implementation defines it and proves
/// `invoke` against it, so callers can say what the dispatched handler
/// returned.
pub trait RouteAction<E: ServerError>: Sized + Copy {
    /// The relation between a request and this handler's result: trivial by
    /// default, overridden by a handler whose callers should know more.
    open spec fn post(self, request: RequestModel, result: Result<Response, E>) -> bool {
        true
    }

    fn invoke(&self, request: &Request) -> (r: Result<Response, E>)
        ensures
            self.post(request.model(), r),
    ;
}

/// The fallback handler a lookup yields when no registration matches: it
/// fails with the resource-not-found error, which the default translator
/// answers with a 404 response.
#[derive(Debug, Clone, Copy, PartialEq, Eq, Structural)]
pub struct NotFoundAction;

impl RouteAction<crate::error::DefaultError> for NotFoundAction {
    /// The fallback always fails with the resource-not-found error.
    open spec fn post(
        self,
        request: RequestModel,
        result: Result<Response, crate::error::DefaultError>,
    ) -> bool {
        result == Err::<Response, crate::error::DefaultError>(crate::error::DefaultError::NotFound)
    }

    fn invoke(&self, _request: &Request) -> Result<Response, crate::error::DefaultError> {
        Err(crate::error::DefaultError::NotFound)
    }
}

// ---------- path normalization ----------

/// Strip leading separators.
pub open spec fn trim_leading(s: Seq<u8>) -> Seq<u8>
    decreases s.len(),
{
    if s.len() > 0 && s[0] == SLASH {
        trim_leading(s.drop_first())
    } else {
        s
    }
}

/// Strip trailing separators.
pub open spec fn trim_trailing(s: Seq<u8>) -> Seq<u8>
    decreases s.len(),
{
    if s.len() > 0 && s.last() == SLASH {
        trim_trailing(s.drop_last())
    } else {
        s
    }
}

/// The ordered literal segments of a path: leading and trailing separators
/// stripped, then split on the separator.
pub open spec fn split_route_spec(path: Seq<u8>) -> Seq<Seq<u8>> {
    split1(trim_trailing(trim_leading(path)), SLASH)
}

/// Normalize and split a route path into its literal segments.
#[verifier::loop_isolation(false)]
pub fn split_route(b: &[u8]) -> (r: Vec<Vec<u8>>)
    ensures
        vecs_view(r@) == split_route_spec(b@),
{
    let mut lo: usize = 0;
    let mut hi: usize = b.len();
    proof {
        assert(b@.subrange(0, b@.len() as int) =~= b@);
    }
    while lo < b.len() && b[lo] == SLASH
        invariant
            lo <= b@.len(),
            trim_leading(b@) == trim_leading(b@.subrange(lo as int, b@.len() as int)),
        decreases b@.len() - lo,
    {
        proof {
            let cur = b@.subrange(lo as int, b@.len() as int);
            assert(cur.drop_first() =~= b@.subrange(lo + 1, b@.len() as int));
        }
        lo += 1;
    }
    let ghost left = b@.subrange(lo as int, b@.len() as int);
    proof {
        assert(trim_leading(left) == left);
        assert(trim_leading(b@) == left);
    }
    while hi > lo && b[hi - 1] == SLASH
        invariant
            lo <= hi <= b@.len(),
            trim_trailing(left) == trim_trailing(b@.subrange(lo as int, hi as int)),
        decreases hi,
    {
        proof {
            let cur = b@.subrange(lo as int, hi as int);
            assert(cur.len() > 0 && cur.last() == SLASH);
            assert(cur.drop_last() =~= b@.subrange(lo as int, hi - 1));
        }
        hi -= 1;
    }
    proof {
        let cur = b@.subrange(lo as int, hi as int);
        assert(trim_trailing(cur) == cur);
        assert(trim_trailing(trim_leading(b@)) == cur);
    }
    split_on(vstd::slice::slice_subrange(b, lo, hi), SLASH)
}

// ---------- the tree ----------

/// One path segment of the tree: an action (a registered handler or an
/// inherited not-found handler) and the literal child segments.
#[verifier::reject_recursive_types(F)]
pub struct RoutingTreeNode<F> {
    pub action: F,
    pub children: Vec<(Vec<u8>, RoutingTreeNode<F>)>,
}

/// The effective path of a segment sequence: everything up to the first empty
/// segment, which ends a walk.
pub open spec fn eff_path(segs: Seq<Seq<u8>>) -> Seq<Seq<u8>>
    decreases segs.len(),
{
    if segs.len() == 0 || segs[0].len() == 0 {
        Seq::empty()
    } else {
        seq![segs[0]] + eff_path(segs.drop_first())
    }
}

/// Two segment sequences with equal nonempty heads have equal effective paths
/// exactly when their tails do.
pub proof fn lemma_eff_path_step(q: Seq<Seq<u8>>, p: Seq<Seq<u8>>)
    requires
        q.len() > 0,
        p.len() > 0,
        q[0].len() > 0,
        q[0] == p[0],
    ensures
        (eff_path(q) == eff_path(p)) <==> (eff_path(q.drop_first()) == eff_path(p.drop_first())),
{
    assert((seq![q[0]] + eff_path(q.drop_first())).drop_first() =~= eff_path(q.drop_first()));
    assert((seq![p[0]] + eff_path(p.drop_first())).drop_first() =~= eff_path(p.drop_first()));
    if eff_path(q.drop_first()) == eff_path(p.drop_first()) {
        assert(eff_path(q) =~= eff_path(p));
    }
}

impl<F: Copy> RoutingTreeNode<F> {
    /// Index of the child carrying this literal segment, or -1.
    pub open spec fn child_index(children: Seq<(Vec<u8>, RoutingTreeNode<F>)>, seg: Seq<u8>) -> int
        decreases children.len(),
    {
        if children.len() == 0 {
            -1
        } else if children[0].0@ == seg {
            0
        } else {
            let r = Self::child_index(children.drop_first(), seg);
            if r < 0 {
                -1
            } else {
                r + 1
            }
        }
    }

    proof fn lemma_child_index(children: Seq<(Vec<u8>, RoutingTreeNode<F>)>, seg: Seq<u8>)
        ensures
            -1 <= Self::child_index(children, seg) < children.len(),
            Self::child_index(children, seg) >= 0 ==> children[Self::child_index(children, seg)].0@
                == seg,
            Self::child_index(children, seg) >= 0 ==> forall|j: int|
                0 <= j < Self::child_index(children, seg) ==> (#[trigger] children[j]).0@ != seg,
            Self::child_index(children, seg) < 0 ==> forall|j: int|
                0 <= j < children.len() ==> (#[trigger] children[j]).0@ != seg,
        decreases children.len(),
    {
        if children.len() > 0 && children[0].0@ != seg {
            Self::lemma_child_index(children.drop_first(), seg);
            assert(forall|j: int|
                1 <= j < children.len() ==> (#[trigger] children[j]) == children.drop_first()[j
                    - 1]);
        }
    }

    /// The child index is a function of the keys alone.
    proof fn lemma_child_index_keys(
        c1: Seq<(Vec<u8>, RoutingTreeNode<F>)>,
        c2: Seq<(Vec<u8>, RoutingTreeNode<F>)>,
        seg: Seq<u8>,
    )
        requires
            c1.len() == c2.len(),
            forall|j: int| 0 <= j < c1.len() ==> (#[trigger] c1[j]).0@ == (#[trigger] c2[j]).0@,
        ensures
            Self::child_index(c1, seg) == Self::child_index(c2, seg),
        decreases c1.len(),
    {
        if c1.len() > 0 {
            Self::lemma_child_index_keys(c1.drop_first(), c2.drop_first(), seg);
            assert(c1[0].0@ == c2[0].0@);
        }
    }

    /// What a lookup yields from this node on the remaining segments: an
    /// exhausted or empty segment ends the walk at this node's action; a
    /// matching child continues it; a missing child is a miss.
    pub open spec fn resolve(self, segs: Seq<Seq<u8>>) -> Option<F>
        decreases segs.len(),
    {
        if segs.len() == 0 || segs[0].len() == 0 {
            Some(self.action)
        } else {
            let j = Self::child_index(self.children@, segs[0]);
            if j < 0 {
                None
            } else {
                self.children@[j].1.resolve(segs.drop_first())
            }
        }
    }

    /// A fresh node: the given action and no children, so every walk either
    /// ends here at once or misses.
    pub fn new(action: F) -> (r: Self)
        ensures
            r.action == action,
            r.children@.len() == 0,
            forall|q: Seq<Seq<u8>>| #![trigger r.resolve(q)]
                r.resolve(q) == (if eff_path(q).len() == 0 {
                    Some(action)
                } else {
                    None::<F>
                }),
    {
        let r = RoutingTreeNode { action, children: Vec::new() };
        proof {
            assert forall|q: Seq<Seq<u8>>| #![trigger r.resolve(q)]
                r.resolve(q) == (if eff_path(q).len() == 0 {
                    Some(action)
                } else {
                    None::<F>
                }) by {
                if !(q.len() == 0 || q[0].len() == 0) {
                    assert(Self::child_index(r.children@, q[0]) == -1);
                    assert(eff_path(q).len() > 0);
                }
            }
        }
        r
    }

    /// Resolve the segments from `i` on against this node.
    #[verifier::loop_isolation(false)]
    pub fn get(&self, segs: &Vec<Vec<u8>>, i: usize) -> (r: Option<F>)
        requires
            i <= segs@.len(),
        ensures
            r == self.resolve(vecs_view(segs@).skip(i as int)),
        decreases segs@.len() - i,
    {
        let ghost q = vecs_view(segs@).skip(i as int);
        if i == segs.len() {
            proof {
                assert(q.len() == 0);
            }
            return Some(self.action);
        }
        proof {
            assert(q[0] == vecs_view(segs@)[i as int]);
            assert(vecs_view(segs@)[i as int] == segs@[i as int]@);
        }
        let seg = &segs[i];
        if seg.len() == 0 {
            return Some(self.action);
        }
        proof {
            Self::lemma_child_index(self.children@, q[0]);
        }
        let mut j: usize = 0;
        while j < self.children.len()
            invariant
                j <= self.children@.len(),
                i < segs@.len(),
                q == vecs_view(segs@).skip(i as int),
                q.len() > 0,
                q[0] == segs@[i as int]@,
                q[0].len() > 0,
                forall|k: int| 0 <= k < j ==> (#[trigger] self.children@[k]).0@ != q[0],
                -1 <= Self::child_index(self.children@, q[0]) < self.children@.len(),
                Self::child_index(self.children@, q[0]) >= 0 ==> self.children@[Self::child_index(
                    self.children@,
                    q[0],
                )].0@ == q[0],
                Self::child_index(self.children@, q[0]) >= 0 ==> forall|k: int|
                    0 <= k < Self::child_index(self.children@, q[0]) ==> (#[trigger] self.children@[k]).0@
                        != q[0],
                Self::child_index(self.children@, q[0]) < 0 ==> forall|k: int|
                    0 <= k < self.children@.len() ==> (#[trigger] self.children@[k]).0@ != q[0],
            decreases self.children@.len() - j,
        {
            if crate::bytes::bytes_eq(self.children[j].0.as_slice(), seg.as_slice()) {
                proof {
                    assert(self.children@[j as int].0@ == q[0]);
                    assert(Self::child_index(self.children@, q[0]) == j);
                    assert(q.drop_first() =~= vecs_view(segs@).skip(i + 1));
                }
                return self.children[j].1.get(segs, i + 1);
            }
            j += 1;
        }
        proof {
            assert(Self::child_index(self.children@, q[0]) < 0);
        }
        None
    }

    /// Register `action` at the node reached by the segments from `i` on,
    /// creating missing children pre-populated with the not-found action.
    /// Afterwards the registered effective path resolves to the new action;
    /// every other path resolves as before, except that a former miss may now
    /// end on a created node carrying the not-found action.
    #[verifier::loop_isolation(false)]
    pub fn add(&mut self, segs: &Vec<Vec<u8>>, i: usize, action: F, not_found: F)
        requires
            i <= segs@.len(),
        ensures
            forall|q: Seq<Seq<u8>>| #![trigger final(self).resolve(q)]
                {
                    &&& (eff_path(q) == eff_path(vecs_view(segs@).skip(i as int))
                        ==> final(self).resolve(q) == Some(action))
                    &&& (eff_path(q) != eff_path(vecs_view(segs@).skip(i as int)) ==> (final(self).resolve(q) == old(self).resolve(q) || (old(self).resolve(q) is None && final(self).resolve(q) == Some(not_found))))
                },
        decreases segs@.len() - i,
    {
        let ghost p = vecs_view(segs@).skip(i as int);
        let ghost old_self = *self;
        if i == segs.len() {
            self.action = action;
            proof {
                assert(p.len() == 0);
                assert(eff_path(p) =~= Seq::<Seq<u8>>::empty());
                assert forall|q: Seq<Seq<u8>>| #![trigger final(self).resolve(q)]
                    {
                        &&& (eff_path(q) == eff_path(p) ==> final(self).resolve(q) == Some(action))
                        &&& (eff_path(q) != eff_path(p) ==> (final(self).resolve(q) == old_self.resolve(q) || (old_self.resolve(q) is None && final(self).resolve(q) == Some(
                            not_found,
                        ))))
                    } by {
                    Self::lemma_resolve_action_change(old_self, *self, q);
                }
            }
            return ;
        }
        proof {
            assert(p[0] == vecs_view(segs@)[i as int]);
            assert(vecs_view(segs@)[i as int] == segs@[i as int]@);
        }
        if segs[i].len() == 0 {
            self.action = action;
            proof {
                assert(p.len() > 0 && p[0].len() == 0);
                assert(eff_path(p) =~= Seq::<Seq<u8>>::empty());
                assert forall|q: Seq<Seq<u8>>| #![trigger final(self).resolve(q)]
                    {
                        &&& (eff_path(q) == eff_path(p) ==> final(self).resolve(q) == Some(action))
                        &&& (eff_path(q) != eff_path(p) ==> (final(self).resolve(q) == old_self.resolve(q) || (old_self.resolve(q) is None && final(self).resolve(q) == Some(
                            not_found,
                        ))))
                    } by {
                    Self::lemma_resolve_action_change(old_self, *self, q);
                }
            }
            return ;
        }
        let ghost seg = p[0];
        proof {
            Self::lemma_child_index(self.children@, seg);
        }
        let mut j: usize = 0;
        let mut found = false;
        while j < self.children.len() && !found
            invariant
                j <= self.children@.len(),
                *self == old_self,
                i < segs@.len(),
                seg == segs@[i as int]@,
                found ==> j < self.children@.len() && self.children@[j as int].0@ == seg
                    && Self::child_index(self.children@, seg) == j,
                !found ==> forall|k: int| 0 <= k < j ==> (#[trigger] self.children@[k]).0@ != seg,
                -1 <= Self::child_index(self.children@, seg) < self.children@.len(),
                Self::child_index(self.children@, seg) >= 0 ==> self.children@[Self::child_index(
                    self.children@,
                    seg,
                )].0@ == seg,
                Self::child_index(self.children@, seg) >= 0 ==> forall|k: int|
                    0 <= k < Self::child_index(self.children@, seg) ==> (#[trigger] self.children@[k]).0@
                        != seg,
                Self::child_index(self.children@, seg) < 0 ==> forall|k: int|
                    0 <= k < self.children@.len() ==> (#[trigger] self.children@[k]).0@ != seg,
            decreases self.children@.len() - j + (if found {
                0int
            } else {
                1int
            }),
        {
            if crate::bytes::bytes_eq(self.children[j].0.as_slice(), segs[i].as_slice()) {
                found = true;
            } else {
                j += 1;
            }
        }
        if !found {
            // No child carries this segment yet: create one pre-populated
            // with the not-found action.
            proof {
                assert(Self::child_index(self.children@, seg) < 0);
            }
            let key = crate::message::copy_bytes(segs[i].as_slice());
            let fresh = RoutingTreeNode::new(not_found);
            j = self.children.len();
            self.children.push((key, fresh));
            proof {
                assert(self.children@.drop_last() =~= old_self.children@);
                assert(self.children@.len() == old_self.children@.len() + 1);
                assert(self.children@[j as int].1 == fresh);
                Self::lemma_child_index_append(old_self.children@, (key, fresh), seg);
            }
        }
        // Descend into the child at `j`, reattaching it afterwards so the
        // child list keeps its keys and order.
        let ghost pre = *self;
        proof {
            assert(pre.children@[j as int].0@ == seg);
            assert(Self::child_index(pre.children@, seg) == j);
        }
        let (key, mut child) = self.children.remove(j);
        let ghost old_child = child;
        child.add(segs, i + 1, action, not_found);
        self.children.insert(j, (key, child));
        proof {
            assert(self.children@ =~= pre.children@.update(j as int, (key, child)));
            assert((key, old_child) == pre.children@[j as int]);
            assert(p.drop_first() =~= vecs_view(segs@).skip(i + 1));
            Self::lemma_add_post(
                old_self,
                pre,
                *self,
                old_child,
                child,
                j as int,
                p,
                seg,
                action,
                not_found,
                !found,
            );
        }
    }

    /// Changing only the action changes only the walks that end here.
    proof fn lemma_resolve_action_change(before: Self, after: Self, q: Seq<Seq<u8>>)
        requires
            after.children == before.children,
        ensures
            q.len() == 0 || q[0].len() == 0 ==> after.resolve(q) == Some(after.action)
                && before.resolve(q) == Some(before.action),
            !(q.len() == 0 || q[0].len() == 0) ==> after.resolve(q) == before.resolve(q),
        decreases q.len(),
    {
        if !(q.len() == 0 || q[0].len() == 0) {
            let j = Self::child_index(before.children@, q[0]);
        }
    }

    proof fn lemma_child_index_append(
        children: Seq<(Vec<u8>, RoutingTreeNode<F>)>,
        entry: (Vec<u8>, RoutingTreeNode<F>),
        seg: Seq<u8>,
    )
        requires
            forall|k: int| 0 <= k < children.len() ==> (#[trigger] children[k]).0@ != seg,
            entry.0@ == seg,
        ensures
            Self::child_index(children.push(entry), seg) == children.len(),
        decreases children.len(),
    {
        if children.len() == 0 {
            assert(children.push(entry)[0] == entry);
        } else {
            assert(children.push(entry)[0] == children[0]);
            assert(children.push(entry).drop_first() =~= children.drop_first().push(entry));
            Self::lemma_child_index_append(children.drop_first(), entry, seg);
        }
    }

    /// Stitch the recursive postcondition of `add` on the child at `j` into
    /// the node-level postcondition.
    #[verifier::spinoff_prover]
    proof fn lemma_add_post(
        old_self: Self,
        pre: Self,
        new_self: Self,
        old_child: Self,
        new_child: Self,
        j: int,
        p: Seq<Seq<u8>>,
        seg: Seq<u8>,
        action: F,
        not_found: F,
        pushed: bool,
    )
        requires
            p.len() > 0,
            p[0] == seg,
            seg.len() > 0,
            0 <= j < pre.children@.len(),
            pre.children@[j].0@ == seg,
            Self::child_index(pre.children@, seg) == j,
            new_self.action == pre.action,
            new_self.children@ == pre.children@.update(j, (pre.children@[j].0, new_child)),
            old_child == pre.children@[j].1,
            // how `pre` relates to `old_self`
            pre.action == old_self.action,
            !pushed ==> pre.children@ == old_self.children@,
            pushed ==> pre.children@.drop_last() == old_self.children@
                && pre.children@.len() == old_self.children@.len() + 1
                && j == old_self.children@.len()
                && Self::child_index(old_self.children@, seg) < 0
                && forall|q2: Seq<Seq<u8>>| #![trigger old_child.resolve(q2)]
                old_child.resolve(q2) == (if eff_path(q2).len() == 0 {
                    Some(not_found)
                } else {
                    None::<F>
                }),
            // the recursive call's postcondition
            forall|q2: Seq<Seq<u8>>| #![trigger new_child.resolve(q2)]
                {
                    &&& (eff_path(q2) == eff_path(p.drop_first()) ==> new_child.resolve(q2)
                        == Some(action))
                    &&& (eff_path(q2) != eff_path(p.drop_first()) ==> (new_child.resolve(q2)
                        == old_child.resolve(q2) || (old_child.resolve(q2) is None
                        && new_child.resolve(q2) == Some(not_found))))
                },
        ensures
            forall|q: Seq<Seq<u8>>| #![trigger new_self.resolve(q)]
                {
                    &&& (eff_path(q) == eff_path(p) ==> new_self.resolve(q) == Some(action))
                    &&& (eff_path(q) != eff_path(p) ==> (new_self.resolve(q) == old_self.resolve(q)
                        || (old_self.resolve(q) is None && new_self.resolve(q) == Some(
                        not_found,
                    ))))
                },
    {
        assert(eff_path(p) == seq![seg] + eff_path(p.drop_first()));
        assert(eff_path(p).len() > 0);
        assert forall|q: Seq<Seq<u8>>| #![trigger new_self.resolve(q)]
            {
                &&& (eff_path(q) == eff_path(p) ==> new_self.resolve(q) == Some(action))
                &&& (eff_path(q) != eff_path(p) ==> (new_self.resolve(q) == old_self.resolve(q) || (
                old_self.resolve(q) is None && new_self.resolve(q) == Some(not_found))))
            } by {
            if q.len() == 0 || q[0].len() == 0 {
                // The walk ends at this node on both sides.
                assert(eff_path(q) =~= Seq::<Seq<u8>>::empty());
                assert(eff_path(q) != eff_path(p));
                assert(new_self.resolve(q) == Some(new_self.action));
                assert(old_self.resolve(q) == Some(old_self.action));
            } else {
                assert(forall|k: int|
                    0 <= k < new_self.children@.len() ==> (#[trigger] new_self.children@[k]).0@
                        == (#[trigger] pre.children@[k]).0@);
                Self::lemma_child_index_keys(new_self.children@, pre.children@, q[0]);
                let jq = Self::child_index(pre.children@, q[0]);
                Self::lemma_child_index(pre.children@, q[0]);
                if pushed {
                    assert forall|k: int|
                        0 <= k < old_self.children@.len() implies pre.children@[k]
                        == (#[trigger] old_self.children@[k]) by {
                        assert(pre.children@.drop_last()[k] == pre.children@[k]);
                    }
                    Self::lemma_child_index(old_self.children@, q[0]);
                }
                if q[0] == seg {
                    assert(jq == j);
                    assert(new_self.children@[j].1 == new_child);
                    assert(new_self.resolve(q) == new_child.resolve(q.drop_first()));
                    lemma_eff_path_step(q, p);
                    if eff_path(q) == eff_path(p) {
                        assert(new_child.resolve(q.drop_first()) == Some(action));
                    } else {
                        assert(eff_path(q.drop_first()) != eff_path(p.drop_first()));
                        let nc = new_child.resolve(q.drop_first());
                        let oc = old_child.resolve(q.drop_first());
                        assert(nc == oc || (oc is None && nc == Some(not_found)));
                        if pushed {
                            assert(Self::child_index(old_self.children@, q[0]) < 0);
                            assert(old_self.resolve(q) is None);
                            assert(oc == Some(not_found) || oc is None);
                        } else {
                            assert(old_self.resolve(q) == oc);
                        }
                    }
                } else {
                    // The walk leaves through a different child, or misses.
                    if eff_path(q) == eff_path(p) {
                        assert(eff_path(q) == seq![q[0]] + eff_path(q.drop_first()));
                        assert(eff_path(q)[0] == q[0]);
                        assert(eff_path(p)[0] == seg);
                        assert(false);
                    }
                    assert(jq != j);
                    if jq < 0 {
                        assert(new_self.resolve(q) is None);
                        if pushed {
                            assert(Self::child_index(old_self.children@, q[0]) < 0) by {
                                let r = Self::child_index(old_self.children@, q[0]);
                                if r >= 0 {
                                    assert(pre.children@[r].0@ == q[0]);
                                }
                            }
                        }
                        assert(old_self.resolve(q) is None);
                    } else {
                        assert(new_self.children@[jq] == pre.children@[jq]);
                        assert(new_self.resolve(q) == pre.children@[jq].1.resolve(q.drop_first()));
                        if pushed {
                            assert(jq != j);
                            assert(jq < old_self.children@.len());
                            assert(old_self.children@[jq].0@ == q[0]);
                            assert(Self::child_index(old_self.children@, q[0]) == jq) by {
                                let r = Self::child_index(old_self.children@, q[0]);
                                if r >= 0 && r < jq {
                                    assert(pre.children@[r].0@ == q[0]);
                                }
                                if r < 0 {
                                    assert(old_self.children@[jq].0@ != q[0]);
                                }
                            }
                            assert(old_self.resolve(q) == old_self.children@[jq].1.resolve(
                                q.drop_first(),
                            ));
                            assert(old_self.children@[jq] == pre.children@[jq]);
                        } else {
                            assert(old_self.resolve(q) == pre.children@[jq].1.resolve(
                                q.drop_first(),
                            ));
                        }
                    }
                }
            }
        }
    }
}

// ---------- the router ----------

/// One lookup tree per verb, and the global not-found action that a missed
/// lookup falls back to. Built before the server starts and read-only after.
#[verifier::reject_recursive_types(F)]
pub struct Router<F> {
    pub get_tree: RoutingTreeNode<F>,
    pub post_tree: RoutingTreeNode<F>,
    pub put_tree: RoutingTreeNode<F>,
    pub patch_tree: RoutingTreeNode<F>,
    pub delete_tree: RoutingTreeNode<F>,
    pub not_found_action: F,
}

impl<F: Copy> Router<F> {
    /// The tree serving a verb.
    pub open spec fn tree(self, method: HttpMethod) -> RoutingTreeNode<F> {
        match method {
            HttpMethod::Get => self.get_tree,
            HttpMethod::Post => self.post_tree,
            HttpMethod::Put => self.put_tree,
            HttpMethod::Patch => self.patch_tree,
            HttpMethod::Delete => self.delete_tree,
        }
    }

    /// The handler a lookup yields: the tree's hit for the normalized path,
    /// or the global not-found action. A lookup never fails.
    pub open spec fn route_action(self, method: HttpMethod, path: Seq<u8>) -> F {
        match self.tree(method).resolve(split_route_spec(path)) {
            Some(a) => a,
            None => self.not_found_action,
        }
    }

    /// A router with no registrations: every lookup yields the not-found
    /// action.
    pub fn new(not_found_action: F) -> (r: Router<F>)
        ensures
            r.not_found_action == not_found_action,
            forall|method: HttpMethod, path: Seq<u8>| #![trigger r.route_action(method, path)]
                r.route_action(method, path) == not_found_action,
    {
        let r = Router {
            get_tree: RoutingTreeNode::new(not_found_action),
            post_tree: RoutingTreeNode::new(not_found_action),
            put_tree: RoutingTreeNode::new(not_found_action),
            patch_tree: RoutingTreeNode::new(not_found_action),
            delete_tree: RoutingTreeNode::new(not_found_action),
            not_found_action,
        };
        proof {
            assert forall|method: HttpMethod, path: Seq<u8>| #![trigger r.route_action(method, path)]
                r.route_action(method, path) == not_found_action by {
                let q = split_route_spec(path);
                match method {
                    HttpMethod::Get => assert(r.get_tree.resolve(q) == (if eff_path(q).len() == 0 {
                        Some(not_found_action)
                    } else {
                        None::<F>
                    })),
                    HttpMethod::Post => assert(r.post_tree.resolve(q) == (if eff_path(q).len()
                        == 0 {
                        Some(not_found_action)
                    } else {
                        None::<F>
                    })),
                    HttpMethod::Put => assert(r.put_tree.resolve(q) == (if eff_path(q).len() == 0 {
                        Some(not_found_action)
                    } else {
                        None::<F>
                    })),
                    HttpMethod::Patch => assert(r.patch_tree.resolve(q) == (if eff_path(q).len()
                        == 0 {
                        Some(not_found_action)
                    } else {
                        None::<F>
                    })),
                    HttpMethod::Delete => assert(r.delete_tree.resolve(q) == (if eff_path(q).len()
                        == 0 {
                        Some(not_found_action)
                    } else {
                        None::<F>
                    })),
                }
            }
        }
        r
    }

    /// Register a handler for a verb and path pattern. The registered
    /// effective path now routes to it — re-registration replaces the earlier
    /// handler, the last registration winning — and every other lookup, on
    /// this verb or any other, yields exactly what it yielded before.
    pub fn add(&mut self, method: HttpMethod, route: &str, action: F)
        ensures
            final(self).not_found_action == old(self).not_found_action,
            forall|m: HttpMethod, path: Seq<u8>| #![trigger final(self).route_action(m, path)]
                final(self).route_action(m, path) == (if m == method && eff_path(
                    split_route_spec(path),
                ) == eff_path(split_route_spec(route.spec_bytes())) {
                    action
                } else {
                    old(self).route_action(m, path)
                }),
    {
        let segs = split_route(route.as_bytes());
        let nf = self.not_found_action;
        let ghost old_self = *self;
        match method {
            HttpMethod::Get => self.get_tree.add(&segs, 0, action, nf),
            HttpMethod::Post => self.post_tree.add(&segs, 0, action, nf),
            HttpMethod::Put => self.put_tree.add(&segs, 0, action, nf),
            HttpMethod::Patch => self.patch_tree.add(&segs, 0, action, nf),
            HttpMethod::Delete => self.delete_tree.add(&segs, 0, action, nf),
        }
        proof {
            let p0 = split_route_spec(route.spec_bytes());
            assert(vecs_view(segs@).skip(0) =~= p0);
            assert forall|m: HttpMethod, path: Seq<u8>| #![trigger self.route_action(m, path)]
                self.route_action(m, path) == (if m == method && eff_path(split_route_spec(path))
                    == eff_path(p0) {
                    action
                } else {
                    old_self.route_action(m, path)
                }) by {
                let q = split_route_spec(path);
                if m == method {
                    let t_new = self.tree(m);
                    let t_old = old_self.tree(m);
                    if eff_path(q) == eff_path(p0) {
                        assert(t_new.resolve(q) == Some(action));
                    } else {
                        assert(t_new.resolve(q) == t_old.resolve(q) || (t_old.resolve(q) is None
                            && t_new.resolve(q) == Some(nf)));
                    }
                } else {
                    assert(self.tree(m) == old_self.tree(m));
                }
            }
        }
    }

    /// Look the handler up for a verb and path: the registered handler on an
    /// exact (normalized) match, the not-found action otherwise.
    pub fn get(&self, method: HttpMethod, route: &[u8]) -> (r: F)
        ensures
            r == self.route_action(method, route@),
    {
        let segs = split_route(route);
        proof {
            assert(vecs_view(segs@).skip(0) =~= split_route_spec(route@));
        }
        let hit = match method {
            HttpMethod::Get => self.get_tree.get(&segs, 0),
            HttpMethod::Post => self.post_tree.get(&segs, 0),
            HttpMethod::Put => self.put_tree.get(&segs, 0),
            HttpMethod::Patch => self.patch_tree.get(&segs, 0),
            HttpMethod::Delete => self.delete_tree.get(&segs, 0),
        };
        match hit {
            Some(a) => a,
            None => self.not_found_action,
        }
    }
}

// ---------- normalization laws ----------

/// Stripping the leading separators of a path with one more byte at the end.
proof fn lemma_trim_leading_push(s: Seq<u8>, c: u8)
    ensures
        trim_leading(s.push(c)) == (if trim_leading(s).len() == 0 && c == SLASH {
            Seq::<u8>::empty()
        } else {
            trim_leading(s).push(c)
        }),
    decreases s.len(),
{
    if s.len() > 0 && s[0] == SLASH {
        assert(s.push(c)[0] == SLASH);
        assert(s.push(c).drop_first() =~= s.drop_first().push(c));
        lemma_trim_leading_push(s.drop_first(), c);
        assert(trim_leading(s.push(c)) == trim_leading(s.drop_first().push(c)));
        assert(trim_leading(s) == trim_leading(s.drop_first()));
    } else if s.len() == 0 {
        if c == SLASH {
            assert(s.push(c)[0] == SLASH);
            assert(s.push(c).drop_first() =~= Seq::<u8>::empty());
            assert(trim_leading(s.push(c)) == trim_leading(Seq::<u8>::empty()));
            assert(trim_leading(s) =~= s);
        } else {
            assert(trim_leading(s.push(c)) =~= s.push(c));
            assert(trim_leading(s) =~= s);
        }
    } else {
        assert(s.push(c)[0] == s[0]);
        assert(trim_leading(s.push(c)) == s.push(c));
        assert(trim_leading(s) == s);
    }
}

/// A path with a trailing separator routes exactly like the path itself:
/// normalization strips it, so both split into the same segments.
pub proof fn lemma_trailing_slash(path: Seq<u8>)
    ensures
        split_route_spec(path.push(SLASH)) == split_route_spec(path),
{
    lemma_trim_leading_push(path, SLASH);
    let t = trim_leading(path);
    if t.len() == 0 {
        assert(trim_leading(path.push(SLASH)) == Seq::<u8>::empty());
        assert(trim_trailing(Seq::<u8>::empty()) == Seq::<u8>::empty());
        assert(trim_trailing(t) == Seq::<u8>::empty());
    } else {
        assert(trim_leading(path.push(SLASH)) == t.push(SLASH));
        assert(t.push(SLASH).last() == SLASH);
        assert(t.push(SLASH).drop_last() =~= t);
        assert(trim_trailing(t.push(SLASH)) == trim_trailing(t));
    }
}

} // verus!
