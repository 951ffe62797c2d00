//! Placeholder descriptors and the environment that a match fills.

use vstd::prelude::*;
use crate::match_tree::does_node_match_exactly;
use crate::matching::exactly_equal;
use crate::node::{Node, NodeView};

verus! {

/// What a placeholder in a pattern stands for.
#[derive(Debug, PartialEq, Eq)]
pub enum MetaVariable {
    /// Matches one node and binds it under the name; the flag demands a named node.
    Capture(String, bool),
    /// Matches one node and binds nothing; the flag demands a named node.
    Dropped(bool),
    /// Matches any run of sibling nodes and binds nothing.
    Multiple,
    /// Matches any run of sibling nodes and binds the run under the name.
    MultiCapture(String),
}

/// A placeholder descriptor with its names as sequences of characters.
pub enum MetaVariableView {
    Capture(Seq<char>, bool),
    Dropped(bool),
    Multiple,
    MultiCapture(Seq<char>),
}

impl MetaVariableView {
    /// Whether the placeholder stands for a run of siblings rather than for one node.
    pub open spec fn is_ellipsis(self) -> bool {
        self is Multiple || self is MultiCapture
    }

    /// The name under which an ellipsis binds the run it matched, if it binds at all.
    pub open spec fn ellipsis_name(self) -> Option<Seq<char>> {
        match self {
            MetaVariableView::MultiCapture(name) => Some(name),
            _ => None,
        }
    }
}

impl View for MetaVariable {
    type V = MetaVariableView;

    open spec fn view(&self) -> MetaVariableView {
        match *self {
            MetaVariable::Capture(name, named) => MetaVariableView::Capture(name@, named),
            MetaVariable::Dropped(named) => MetaVariableView::Dropped(named),
            MetaVariable::Multiple => MetaVariableView::Multiple,
            MetaVariable::MultiCapture(name) => MetaVariableView::MultiCapture(name@),
        }
    }
}

/// The bindings that a match has made: each name holds one node or one run of nodes.
#[verifier::ext_equal]
pub struct Bindings {
    pub single: Map<Seq<char>, NodeView>,
    pub multi: Map<Seq<char>, Seq<NodeView>>,
}

impl Bindings {
    pub open spec fn empty() -> Bindings {
        Bindings { single: Map::empty(), multi: Map::empty() }
    }

    /// Binds one node under `name`. A name that is bound already accepts only a node that
    /// exactly equals the one it holds; any other node makes the insertion fail.
    pub open spec fn insert(self, name: Seq<char>, node: NodeView) -> Option<Bindings> {
        if self.single.contains_key(name) && !exactly_equal(self.single[name], node) {
            None
        } else {
            Some(Bindings { single: self.single.insert(name, node), multi: self.multi })
        }
    }

    /// Binds a run of nodes under `name`, in place of any run bound there before.
    pub open spec fn insert_multi(self, name: Seq<char>, nodes: Seq<NodeView>) -> Bindings {
        Bindings { single: self.single, multi: self.multi.insert(name, nodes) }
    }

    /// What an ellipsis leaves behind: a named one binds the run it consumed without its last
    /// `skipped` nodes, an unnamed one binds nothing.
    pub open spec fn bind_ellipsis(self, name: Option<Seq<char>>, nodes: Seq<NodeView>, skipped: nat) -> Bindings {
        match name {
            Some(n) => self.insert_multi(n, drop_trailing(nodes, skipped)),
            None => self,
        }
    }
}

/// A run without its last `skipped` nodes; empty where it has no more than that.
pub open spec fn drop_trailing(nodes: Seq<NodeView>, skipped: nat) -> Seq<NodeView> {
    if skipped >= nodes.len() {
        Seq::empty()
    } else {
        nodes.take(nodes.len() - skipped)
    }
}

/// The views of a run of borrowed nodes, in order.
pub open spec fn ref_views(nodes: Seq<&Node>) -> Seq<NodeView> {
    nodes.map_values(|n: &Node| n@)
}

/// Whether some entry of a list carries the name.
spec fn has_name<V>(entries: Seq<(String, V)>, name: Seq<char>) -> bool {
    exists|i: int| 0 <= i < entries.len() && (#[trigger] entries[i]).0@ == name
}

/// Whether the entry at `i` is the first of the list that carries the name.
spec fn first_with_name<V>(entries: Seq<(String, V)>, name: Seq<char>, i: int) -> bool {
    &&& 0 <= i < entries.len()
    &&& entries[i].0@ == name
    &&& forall|k: int| 0 <= k < i ==> (#[trigger] entries[k]).0@ != name
}

/// The place of the first entry that carries the name.
spec fn index_of_name<V>(entries: Seq<(String, V)>, name: Seq<char>) -> int {
    choose|i: int| first_with_name(entries, name, i)
}

/// Before an entry that carries the name there is a first one that does.
proof fn lemma_first_before<V>(entries: Seq<(String, V)>, name: Seq<char>, w: int)
    requires
        0 <= w < entries.len(),
        entries[w].0@ == name,
    ensures
        exists|i: int| first_with_name(entries, name, i),
    decreases w,
{
    if forall|k: int| 0 <= k < w ==> (#[trigger] entries[k]).0@ != name {
        assert(first_with_name(entries, name, w));
    } else {
        let k = choose|k: int| 0 <= k < w && (#[trigger] entries[k]).0@ == name;
        lemma_first_before(entries, name, k);
    }
}

/// A name that the list carries is first carried at `index_of_name`.
proof fn lemma_index_of_name<V>(entries: Seq<(String, V)>, name: Seq<char>)
    requires
        has_name(entries, name),
    ensures
        first_with_name(entries, name, index_of_name(entries, name)),
{
    let w = choose|i: int| 0 <= i < entries.len() && (#[trigger] entries[i]).0@ == name;
    lemma_first_before(entries, name, w);
}

/// Two lists that carry the same names at the same places look every name up at the same place.
proof fn lemma_same_names<V, W>(a: Seq<(String, V)>, b: Seq<(String, W)>)
    requires
        a.len() == b.len(),
        forall|k: int| 0 <= k < a.len() ==> (#[trigger] a[k]).0@ == (#[trigger] b[k]).0@,
    ensures
        forall|n: Seq<char>| has_name(a, n) <==> has_name(b, n),
        forall|n: Seq<char>| has_name(a, n) ==> index_of_name(a, n) == index_of_name(b, n),
        forall|n: Seq<char>| has_name(a, n) ==> first_with_name(a, n, index_of_name(a, n)),
{
    assert forall|n: Seq<char>| has_name(a, n) implies has_name(b, n) && index_of_name(a, n) == index_of_name(
        b,
        n,
    ) && first_with_name(a, n, index_of_name(a, n)) by {
        lemma_index_of_name(a, n);
        let i = index_of_name(a, n);
        assert(b[i].0@ == n);
        lemma_index_of_name(b, n);
        let j = index_of_name(b, n);
        assert(a[j].0@ == n);
        assert forall|k: int| 0 <= k < i implies (#[trigger] b[k]).0@ != n by {
            assert(a[k].0@ != n);
        }
    }
    assert forall|n: Seq<char>| has_name(b, n) implies has_name(a, n) by {
        let w = choose|i: int| 0 <= i < b.len() && (#[trigger] b[i]).0@ == n;
        assert(a[w].0@ == n);
    }
}

/// A list with one more entry, under a name that it did not carry, looks the old names up where
/// it did and the new name up at the end.
proof fn lemma_pushed_name<V>(a: Seq<(String, V)>, entry: (String, V))
    requires
        !has_name(a, entry.0@),
    ensures
        forall|n: Seq<char>| has_name(a.push(entry), n) <==> (has_name(a, n) || n == entry.0@),
        forall|n: Seq<char>| has_name(a, n) ==> index_of_name(a.push(entry), n) == index_of_name(a, n),
        forall|n: Seq<char>| has_name(a, n) ==> first_with_name(a, n, index_of_name(a, n)),
        index_of_name(a.push(entry), entry.0@) == a.len(),
{
    let b = a.push(entry);
    assert(b[a.len() as int].0@ == entry.0@);
    assert forall|n: Seq<char>| has_name(b, n) implies has_name(a, n) || n == entry.0@ by {
        let w = choose|i: int| 0 <= i < b.len() && (#[trigger] b[i]).0@ == n;
        if w < a.len() {
            assert(a[w].0@ == n);
        }
    }
    assert forall|n: Seq<char>| has_name(a, n) implies has_name(b, n) && index_of_name(b, n) == index_of_name(
        a,
        n,
    ) && first_with_name(a, n, index_of_name(a, n)) by {
        lemma_index_of_name(a, n);
        let i = index_of_name(a, n);
        assert(b[i].0@ == n);
        lemma_index_of_name(b, n);
        let j = index_of_name(b, n);
        if j < a.len() {
            assert(a[j].0@ == n);
        }
        assert forall|k: int| 0 <= k < i implies (#[trigger] b[k]).0@ != n by {
            assert(a[k].0@ != n);
        }
    }
    assert(has_name(b, entry.0@));
    lemma_index_of_name(b, entry.0@);
    let j = index_of_name(b, entry.0@);
    if j < a.len() {
        assert(a[j].0@ == entry.0@);
    }
}

/// Looks a name up in a list of entries.
fn find_name<V>(entries: &Vec<(String, V)>, name: &String) -> (r: Option<usize>)
    ensures
        match r {
            Some(i) => has_name(entries@, name@) && i == index_of_name(entries@, name@),
            None => !has_name(entries@, name@),
        },
        r is Some ==> r.unwrap() < entries.len() && entries[r.unwrap() as int].0@ == name@,
{
    let mut i: usize = 0;
    while i < entries.len()
        invariant
            i <= entries.len(),
            forall|k: int| 0 <= k < i ==> (#[trigger] entries[k]).0@ != name@,
        decreases entries.len() - i,
    {
        if entries[i].0 == *name {
            proof {
                assert(first_with_name(entries@, name@, i as int));
                lemma_index_of_name(entries@, name@);
            }
            return Some(i);
        }
        i += 1;
    }
    None
}

/// The environment of one match attempt: the nodes and runs of nodes bound to names so far.
pub struct MetaVarEnv<'t> {
    single: Vec<(String, &'t Node)>,
    multi: Vec<(String, Vec<&'t Node>)>,
}

impl<'t> View for MetaVarEnv<'t> {
    type V = Bindings;

    closed spec fn view(&self) -> Bindings {
        Bindings {
            single: Map::new(
                |name: Seq<char>| has_name(self.single@, name),
                |name: Seq<char>| self.single@[index_of_name(self.single@, name)].1@,
            ),
            multi: Map::new(
                |name: Seq<char>| has_name(self.multi@, name),
                |name: Seq<char>| ref_views(self.multi@[index_of_name(self.multi@, name)].1@),
            ),
        }
    }
}

impl<'t> MetaVarEnv<'t> {
    /// An environment that binds nothing.
    pub fn new() -> (r: Self)
        ensures
            r@ == Bindings::empty(),
    {
        let r = MetaVarEnv { single: Vec::new(), multi: Vec::new() };
        assert(r@ =~= Bindings::empty());
        r
    }

    /// Binds `node` under `name` where `Bindings::insert` allows it, and says whether it did.
    pub fn insert(&mut self, name: &str, node: &'t Node) -> (ok: bool)
        ensures
            match old(self)@.insert(name@, node@) {
                Some(b) => ok && final(self)@ == b,
                None => !ok && final(self)@ == old(self)@,
            },
    {
        let key = name.to_owned();
        let ghost before = self.single@;
        match find_name(&self.single, &key) {
            Some(i) => {
                let held: &'t Node = self.single[i].1;
                if does_node_match_exactly(held, node) {
                    self.single.set(i, (key, node));
                    proof {
                        lemma_same_names(before, self.single@);
                        assert(final(self)@.single =~= old(self)@.single.insert(name@, node@));
                        assert(final(self)@ =~= old(self)@.insert(name@, node@).unwrap());
                    }
                    true
                } else {
                    false
                }
            },
            None => {
                self.single.push((key, node));
                proof {
                    lemma_pushed_name(before, (key, node));
                    assert(final(self)@.single =~= old(self)@.single.insert(name@, node@));
                    assert(final(self)@ =~= old(self)@.insert(name@, node@).unwrap());
                }
                true
            },
        }
    }

    /// Binds the run `nodes` under `name`, in place of any run bound there before.
    pub fn insert_multi(&mut self, name: &str, nodes: Vec<&'t Node>)
        ensures
            final(self)@ == old(self)@.insert_multi(name@, ref_views(nodes@)),
    {
        let key = name.to_owned();
        let ghost before = self.multi@;
        let ghost run = nodes@;
        match find_name(&self.multi, &key) {
            Some(i) => {
                self.multi.set(i, (key, nodes));
                proof {
                    lemma_same_names(before, self.multi@);
                }
            },
            None => {
                let ghost entry = (key, nodes);
                self.multi.push((key, nodes));
                proof {
                    lemma_pushed_name(before, entry);
                }
            },
        }
        proof {
            assert(final(self)@.multi =~= old(self)@.multi.insert(name@, ref_views(run)));
            assert(final(self)@ =~= old(self)@.insert_multi(name@, ref_views(run)));
        }
    }

    /// The node bound under `name`, if there is one.
    pub fn get_match(&self, name: &str) -> (r: Option<&'t Node>)
        ensures
            r is Some <==> self@.single.contains_key(name@),
            r is Some ==> r.unwrap()@ == self@.single[name@],
    {
        let key = name.to_owned();
        match find_name(&self.single, &key) {
            Some(i) => Some(self.single[i].1),
            None => None,
        }
    }

    /// The run of nodes bound under `name`; empty where the name binds no run.
    pub fn get_multiple_matches(&self, name: &str) -> (r: Vec<&'t Node>)
        ensures
            ref_views(r@) == if self@.multi.contains_key(name@) {
                self@.multi[name@]
            } else {
                Seq::empty()
            },
    {
        let key = name.to_owned();
        match find_name(&self.multi, &key) {
            Some(i) => {
                let r = copy_refs(&self.multi[i].1);
                r
            },
            None => {
                let r: Vec<&'t Node> = Vec::new();
                assert(ref_views(r@) =~= Seq::empty());
                r
            },
        }
    }
}

/// A second list of the same borrowed nodes.
fn copy_refs<'t>(nodes: &Vec<&'t Node>) -> (r: Vec<&'t Node>)
    ensures
        r@ == nodes@,
{
    let mut r: Vec<&'t Node> = Vec::new();
    let mut i: usize = 0;
    while i < nodes.len()
        invariant
            i <= nodes.len(),
            r@ == nodes@.take(i as int),
        decreases nodes.len() - i,
    {
        r.push(nodes[i]);
        assert(r@ =~= nodes@.take(i + 1));
        i += 1;
    }
    assert(r@ =~= nodes@);
    r
}

impl<'t> Clone for MetaVarEnv<'t> {
    fn clone(&self) -> (r: Self)
        ensures
            r@ == self@,
    {
        let mut single: Vec<(String, &'t Node)> = Vec::new();
        let mut i: usize = 0;
        while i < self.single.len()
            invariant
                i <= self.single.len(),
                single@ == self.single@.take(i as int),
            decreases self.single.len() - i,
        {
            single.push((self.single[i].0.clone(), self.single[i].1));
            assert(single@ =~= self.single@.take(i + 1));
            i += 1;
        }
        assert(single@ =~= self.single@);
        let mut multi: Vec<(String, Vec<&'t Node>)> = Vec::new();
        let mut j: usize = 0;
        while j < self.multi.len()
            invariant
                j <= self.multi.len(),
                multi@.len() == j,
                forall|k: int|
                    0 <= k < j ==> (#[trigger] multi@[k]).0@ == self.multi@[k].0@ && multi@[k].1@
                        == self.multi@[k].1@,
            decreases self.multi.len() - j,
        {
            multi.push((self.multi[j].0.clone(), copy_refs(&self.multi[j].1)));
            j += 1;
        }
        let r = MetaVarEnv { single, multi };
        proof {
            lemma_same_names(self.multi@, r.multi@);
            assert(r@.multi =~= self@.multi);
            assert(r@ =~= self@);
        }
        r
    }
}

} // verus!
