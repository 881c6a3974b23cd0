//! Finding the assets a place refers to: walking its instance tree and
//! collecting, once per asset id, the mesh, texture, sound and animation
//! references of its properties.

use vstd::prelude::*;
use vstd::string::*;
use crate::assets::{asset_id_of, extract_asset_id};
use crate::text::str_eq;

verus! {

#[verifier::external_type_specification]
#[verifier::external_body]
pub struct ExRef(rbx_dom_weak::types::Ref);

/// What a property holds, as far as asset references go.
pub enum PropValue {
    /// A string, a content id, or a content URI.
    Text(String),
    /// Any other value.
    Other,
}

/// One instance of a place.
pub struct PlaceNode {
    pub referent: rbx_dom_weak::types::Ref,
    pub name: String,
    pub class: String,
    /// The instance's properties, in the order they are read.
    pub properties: Vec<(String, PropValue)>,
}

/// The instance tree of a place. Every instance is added after its parent,
/// so each child's index is larger than its parent's.
pub struct PlaceTree {
    nodes: Vec<PlaceNode>,
    /// The children of each instance, in order.
    children: Vec<Vec<usize>>,
    /// The children of the place's root, in order.
    roots: Vec<usize>,
}

/// An asset reference found in a place.
pub struct DiscoveredAsset {
    pub asset_id: String,
    /// `Mesh`, `Texture`, `Sound` or `Animation`.
    pub asset_type: &'static str,
    pub instance_name: String,
    pub instance_class: String,
    pub referent: rbx_dom_weak::types::Ref,
    pub is_downloaded: bool,
}

/// An asset reference, with its texts as characters.
pub struct AssetView {
    pub asset_id: Seq<char>,
    pub asset_type: Seq<char>,
    pub instance_name: Seq<char>,
    pub instance_class: Seq<char>,
    pub referent: rbx_dom_weak::types::Ref,
    pub is_downloaded: bool,
}

impl View for DiscoveredAsset {
    type V = AssetView;

    open spec fn view(&self) -> AssetView {
        AssetView {
            asset_id: self.asset_id@,
            asset_type: self.asset_type@,
            instance_name: self.instance_name@,
            instance_class: self.instance_class@,
            referent: self.referent,
            is_downloaded: self.is_downloaded,
        }
    }
}

// ---------------------------------------------------------------------------
// The tree and the order it is walked in
// ---------------------------------------------------------------------------

/// Every child index names an instance that comes after its parent.
pub open spec fn children_ordered(ch: Seq<Seq<usize>>) -> bool {
    forall|i: int, k: int|
        0 <= i < ch.len() && 0 <= k < ch[i].len() ==> i < #[trigger] ch[i][k] < ch.len()
}

/// Every index of `s` names an instance.
pub open spec fn all_below(s: Seq<usize>, n: int) -> bool {
    forall|k: int| 0 <= k < s.len() ==> #[trigger] s[k] < n
}

/// Every instance is a child of the root, or a child of an instance that
/// comes before it.
pub open spec fn rooted(ch: Seq<Seq<usize>>, roots: Seq<usize>) -> bool {
    forall|i: int|
        0 <= i < ch.len() ==> #[trigger] roots.contains(i as usize) || exists|p: int|
            0 <= p < i && #[trigger] ch[p].contains(i as usize)
}

/// Number of instances in the subtree at `i`, itself included (1 for an
/// index that names no instance).
pub open spec fn subtree_size(ch: Seq<Seq<usize>>, i: int) -> int
    decreases ch.len() - i, 1int, 0int,
{
    if 0 <= i < ch.len() {
        1 + child_sizes(ch, i, ch[i].len() as int)
    } else {
        1
    }
}

/// Total size of the subtrees of the first `k` children of `i`.
pub open spec fn child_sizes(ch: Seq<Seq<usize>>, i: int, k: int) -> int
    decreases ch.len() - i, 0int, k,
{
    if k <= 0 || !(0 <= i < ch.len()) || k > ch[i].len() {
        0
    } else {
        let c = ch[i][k - 1] as int;
        child_sizes(ch, i, k - 1) + if i < c < ch.len() {
            subtree_size(ch, c)
        } else {
            1
        }
    }
}

/// Total size of the subtrees still to be walked from a stack.
pub open spec fn stack_weight(ch: Seq<Seq<usize>>, s: Seq<usize>) -> int
    decreases s.len(),
{
    if s.len() == 0 {
        0
    } else {
        stack_weight(ch, s.drop_last()) + subtree_size(ch, s.last() as int)
    }
}

pub proof fn lemma_subtree_positive(ch: Seq<Seq<usize>>, i: int)
    ensures
        subtree_size(ch, i) >= 1,
    decreases ch.len() - i, 1int, 0int,
{
    if 0 <= i < ch.len() {
        lemma_child_sizes_nonneg(ch, i, ch[i].len() as int);
    }
}

pub proof fn lemma_child_sizes_nonneg(ch: Seq<Seq<usize>>, i: int, k: int)
    ensures
        child_sizes(ch, i, k) >= 0,
    decreases ch.len() - i, 0int, k,
{
    if !(k <= 0 || !(0 <= i < ch.len()) || k > ch[i].len()) {
        lemma_child_sizes_nonneg(ch, i, k - 1);
        let c = ch[i][k - 1] as int;
        if i < c < ch.len() {
            lemma_subtree_positive(ch, c);
        }
    }
}

pub proof fn lemma_stack_weight_nonneg(ch: Seq<Seq<usize>>, s: Seq<usize>)
    ensures
        stack_weight(ch, s) >= 0,
    decreases s.len(),
{
    if s.len() > 0 {
        lemma_stack_weight_nonneg(ch, s.drop_last());
        lemma_subtree_positive(ch, s.last() as int);
    }
}

pub proof fn lemma_stack_weight_concat(ch: Seq<Seq<usize>>, a: Seq<usize>, b: Seq<usize>)
    ensures
        stack_weight(ch, a + b) == stack_weight(ch, a) + stack_weight(ch, b),
    decreases b.len(),
{
    if b.len() > 0 {
        assert((a + b).drop_last() =~= a + b.drop_last());
        lemma_stack_weight_concat(ch, a, b.drop_last());
    } else {
        assert(a + b =~= a);
    }
}

pub proof fn lemma_children_weight(ch: Seq<Seq<usize>>, i: int, k: int)
    requires
        children_ordered(ch),
        0 <= i < ch.len(),
        0 <= k <= ch[i].len(),
    ensures
        child_sizes(ch, i, k) == stack_weight(ch, ch[i].take(k)),
    decreases k,
{
    if k > 0 {
        lemma_children_weight(ch, i, k - 1);
        assert(ch[i].take(k).drop_last() =~= ch[i].take(k - 1));
        let c = ch[i][k - 1];
        assert(i < c < ch.len());
    } else {
        assert(ch[i].take(0) =~= Seq::<usize>::empty());
    }
}

/// Popping `r` off a stack and pushing its children lowers the weight by one.
pub proof fn lemma_pop_weight(ch: Seq<Seq<usize>>, s: Seq<usize>)
    requires
        children_ordered(ch),
        s.len() > 0,
        0 <= s.last() < ch.len(),
    ensures
        stack_weight(ch, s.drop_last() + ch[s.last() as int]) == stack_weight(ch, s) - 1,
{
    let r = s.last() as int;
    lemma_stack_weight_concat(ch, s.drop_last(), ch[r]);
    lemma_children_weight(ch, r, ch[r].len() as int);
    assert(ch[r].take(ch[r].len() as int) =~= ch[r]);
}

/// The order instances are visited from a stack: the last index is taken
/// off, and its children are pushed in order, so the last child is visited
/// next.
pub open spec fn visit(ch: Seq<Seq<usize>>, s: Seq<usize>) -> Seq<usize>
    decreases stack_weight(ch, s),
    when children_ordered(ch) && all_below(s, ch.len() as int)
{
    if s.len() == 0 {
        Seq::empty()
    } else {
        let r = s.last();
        proof {
            lemma_pop_weight(ch, s);
            lemma_stack_weight_nonneg(ch, s.drop_last() + ch[r as int]);
            assert(all_below(s.drop_last() + ch[r as int], ch.len() as int)) by {
                assert forall|k: int| 0 <= k < (s.drop_last() + ch[r as int]).len() implies #[trigger] (
                s.drop_last() + ch[r as int])[k] < ch.len() by {
                    if k >= s.drop_last().len() {
                        assert(ch[r as int][k - s.drop_last().len()] < ch.len());
                    } else {
                        assert(s[k] < ch.len());
                    }
                }
            }
        }
        seq![r] + visit(ch, s.drop_last() + ch[r as int])
    }
}

/// One step of the walk: the last index is visited first, then the stack
/// it leaves with its children pushed.
proof fn lemma_visit_step(ch: Seq<Seq<usize>>, s: Seq<usize>)
    requires
        children_ordered(ch),
        all_below(s, ch.len() as int),
        s.len() > 0,
    ensures
        all_below(s.drop_last() + ch[s.last() as int], ch.len() as int),
        0 <= stack_weight(ch, s.drop_last() + ch[s.last() as int]) < stack_weight(ch, s),
        visit(ch, s) == seq![s.last()] + visit(ch, s.drop_last() + ch[s.last() as int]),
{
    let r = s.last();
    let s2 = s.drop_last() + ch[r as int];
    lemma_pop_weight(ch, s);
    lemma_stack_weight_nonneg(ch, s2);
    assert forall|k: int| 0 <= k < s2.len() implies #[trigger] s2[k] < ch.len() by {
        if k >= s.drop_last().len() {
            assert(ch[r as int][k - s.drop_last().len()] < ch.len());
        } else {
            assert(s[k] < ch.len());
        }
    }
}

/// Every index on the stack is visited.
proof fn lemma_visit_has_stack(ch: Seq<Seq<usize>>, s: Seq<usize>, x: usize)
    requires
        children_ordered(ch),
        all_below(s, ch.len() as int),
        s.contains(x),
    ensures
        visit(ch, s).contains(x),
    decreases stack_weight(ch, s),
{
    lemma_visit_step(ch, s);
    let s2 = s.drop_last() + ch[s.last() as int];
    let v = visit(ch, s);
    if s.last() == x {
        assert(v[0] == x);
    } else {
        let k = choose|k: int| 0 <= k < s.len() && s[k] == x;
        assert(s2[k] == x);
        lemma_visit_has_stack(ch, s2, x);
        let m = choose|m: int| 0 <= m < visit(ch, s2).len() && visit(ch, s2)[m] == x;
        assert(v[m + 1] == x);
    }
}

/// The children of a visited instance are visited too.
proof fn lemma_visit_has_children(ch: Seq<Seq<usize>>, s: Seq<usize>, p: usize, x: usize)
    requires
        children_ordered(ch),
        all_below(s, ch.len() as int),
        visit(ch, s).contains(p),
        p < ch.len(),
        ch[p as int].contains(x),
    ensures
        visit(ch, s).contains(x),
    decreases stack_weight(ch, s),
{
    if s.len() == 0 {
        assert(visit(ch, s).len() == 0);
    } else {
        lemma_visit_step(ch, s);
        let r = s.last();
        let s2 = s.drop_last() + ch[r as int];
        let v = visit(ch, s);
        if r == p {
            let k = choose|k: int| 0 <= k < ch[p as int].len() && ch[p as int][k] == x;
            assert(s2[s.drop_last().len() + k] == x);
            lemma_visit_has_stack(ch, s2, x);
        } else {
            let m = choose|m: int| 0 <= m < v.len() && v[m] == p;
            assert(m > 0);
            assert(visit(ch, s2)[m - 1] == p);
            lemma_visit_has_children(ch, s2, p, x);
        }
        if visit(ch, s2).contains(x) {
            let m = choose|m: int| 0 <= m < visit(ch, s2).len() && visit(ch, s2)[m] == x;
            assert(v[m + 1] == x);
        }
    }
}

/// A walk from the root's children reaches every instance.
proof fn lemma_visit_reaches_all(ch: Seq<Seq<usize>>, roots: Seq<usize>, i: int)
    requires
        children_ordered(ch),
        all_below(roots, ch.len() as int),
        rooted(ch, roots),
        0 <= i < ch.len(),
    ensures
        visit(ch, roots).contains(i as usize),
    decreases i,
{
    if roots.contains(i as usize) {
        lemma_visit_has_stack(ch, roots, i as usize);
    } else {
        let p = choose|p: int| 0 <= p < i && #[trigger] ch[p].contains(i as usize);
        lemma_visit_reaches_all(ch, roots, p);
        lemma_visit_has_children(ch, roots, p as usize, i as usize);
    }
}

impl PlaceTree {
    #[verifier::type_invariant]
    closed spec fn ordered(self) -> bool {
        &&& self.children@.len() == self.nodes@.len()
        &&& children_ordered(self.child_lists())
        &&& all_below(self.roots@, self.nodes@.len() as int)
        &&& rooted(self.child_lists(), self.roots@)
    }

    /// The instances, by index.
    pub closed spec fn nodes(self) -> Seq<PlaceNode> {
        self.nodes@
    }

    /// The children of each instance.
    pub closed spec fn child_lists(self) -> Seq<Seq<usize>> {
        self.children@.map_values(|c: Vec<usize>| c@)
    }

    /// The children of the root.
    pub closed spec fn roots(self) -> Seq<usize> {
        self.roots@
    }

    /// An empty place.
    pub fn new() -> (t: Self)
        ensures
            t.nodes() == Seq::<PlaceNode>::empty(),
            t.child_lists() == Seq::<Seq<usize>>::empty(),
            t.roots() == Seq::<usize>::empty(),
    {
        let t = PlaceTree { nodes: Vec::new(), children: Vec::new(), roots: Vec::new() };
        assert(t.child_lists() =~= Seq::<Seq<usize>>::empty());
        t
    }

    /// Number of instances.
    pub fn len(&self) -> (n: usize)
        ensures
            n == self.nodes().len(),
    {
        proof {
            use_type_invariant(self);
        }
        self.nodes.len()
    }

    /// Adds `node` as the last child of instance `parent`, or of the root
    /// when `parent` is `None`, and returns its index; gives `None`, and
    /// adds nothing, when `parent` names no instance.
    pub fn add(&mut self, parent: Option<usize>, node: PlaceNode) -> (r: Option<usize>)
        ensures
            match parent {
                Some(p) => p >= old(self).nodes().len(),
                None => false,
            } ==> {
                &&& r is None
                &&& final(self).nodes() == old(self).nodes()
                &&& final(self).child_lists() == old(self).child_lists()
                &&& final(self).roots() == old(self).roots()
            },
            match parent {
                Some(p) => p < old(self).nodes().len(),
                None => true,
            } ==> {
                let n = old(self).nodes().len() as usize;
                &&& r == Some(n)
                &&& final(self).nodes() == old(self).nodes().push(node)
                &&& final(self).child_lists() == (match parent {
                    Some(p) => old(self).child_lists().update(
                        p as int,
                        old(self).child_lists()[p as int].push(n),
                    ),
                    None => old(self).child_lists(),
                }).push(Seq::empty())
                &&& final(self).roots() == (match parent {
                    Some(p) => old(self).roots(),
                    None => old(self).roots().push(n),
                })
            },
    {
        proof {
            use_type_invariant(&*self);
        }
        let n = self.nodes.len();
        match parent {
            Some(p) => {
                if p >= n {
                    return None;
                }
            },
            None => {},
        }
        let ghost old_lists = self.child_lists();
        let mut taken = PlaceTree::new();
        std::mem::swap(&mut taken, self);
        let PlaceTree { mut nodes, mut children, mut roots } = taken;
        match parent {
            Some(p) => {
                let mut list = children[p].clone();
                assert(list@ =~= children@[p as int]@);
                list.push(n);
                children.set(p, list);
            },
            None => {
                roots.push(n);
            },
        }
        nodes.push(node);
        children.push(Vec::new());
        let ghost lists = children@.map_values(|c: Vec<usize>| c@);
        proof {
            let expected = (match parent {
                Some(p) => old_lists.update(p as int, old_lists[p as int].push(n)),
                None => old_lists,
            }).push(Seq::<usize>::empty());
            assert(lists =~= expected);
            assert forall|i: int, k: int|
                0 <= i < lists.len() && 0 <= k < lists[i].len() implies i < #[trigger] lists[i][k]
                < lists.len() by {
                if i < n {
                    if parent == Some(i as usize) && k == old_lists[i].len() {
                    } else {
                        assert(lists[i][k] == old_lists[i][k]);
                    }
                }
            }
            assert forall|k: int| 0 <= k < roots@.len() implies #[trigger] roots@[k] < nodes@.len() by {
                if k < old(self).roots@.len() {
                    assert(roots@[k] == old(self).roots@[k]);
                }
            }
            let old_roots = old(self).roots@;
            assert forall|i: int| 0 <= i < lists.len() implies #[trigger] roots@.contains(i as usize)
                || exists|p: int| 0 <= p < i && #[trigger] lists[p].contains(i as usize) by {
                if i == n {
                    match parent {
                        Some(p) => {
                            assert(lists[p as int][old_lists[p as int].len() as int] == n);
                            assert(lists[p as int].contains(i as usize));
                        },
                        None => {
                            assert(roots@[old_roots.len() as int] == n);
                        },
                    }
                } else if old_roots.contains(i as usize) {
                    let k = choose|k: int| 0 <= k < old_roots.len() && old_roots[k] == i as usize;
                    assert(roots@[k] == old_roots[k]);
                } else {
                    let p = choose|p: int| 0 <= p < i && #[trigger] old_lists[p].contains(i as usize);
                    let k = choose|k: int| 0 <= k < old_lists[p].len() && old_lists[p][k] == i as usize;
                    assert(lists[p][k] == old_lists[p][k]);
                    assert(lists[p].contains(i as usize));
                }
            }
        }
        *self = PlaceTree { nodes, children, roots };
        Some(n)
    }
}

// ---------------------------------------------------------------------------
// Collecting references
// ---------------------------------------------------------------------------

/// The kind of asset a property names: `MeshId`/`MeshID` a mesh,
/// `TextureId`/`TextureID`/`Texture` a texture, `SoundId`/`SoundID` a sound,
/// `AnimationId` an animation.
pub open spec fn asset_type_for(key: Seq<char>) -> Option<Seq<char>> {
    if key == "MeshId"@ || key == "MeshID"@ {
        Some("Mesh"@)
    } else if key == "TextureId"@ || key == "TextureID"@ || key == "Texture"@ {
        Some("Texture"@)
    } else if key == "SoundId"@ || key == "SoundID"@ {
        Some("Sound"@)
    } else if key == "AnimationId"@ {
        Some("Animation"@)
    } else {
        None
    }
}

/// The reference a property value holds: its text, when it is text and
/// not empty.
pub open spec fn reference_text(v: PropValue) -> Option<Seq<char>> {
    match v {
        PropValue::Text(s) => if s@.len() > 0 {
            Some(s@)
        } else {
            None
        },
        PropValue::Other => None,
    }
}

/// What the scan has collected so far: the references found, and the ids
/// already seen.
pub struct ScanState {
    pub found: Seq<AssetView>,
    pub seen: Seq<Seq<char>>,
}

/// The scan before anything is found.
pub open spec fn scan_start() -> ScanState {
    ScanState { found: Seq::empty(), seen: Seq::empty() }
}

/// One property of `node`: a reference of a known kind whose id is new is
/// recorded, everything else is passed over.
pub open spec fn prop_step(node: PlaceNode, key: Seq<char>, v: PropValue, st: ScanState) -> ScanState {
    match (asset_type_for(key), reference_text(v)) {
        (Some(ty), Some(s)) => match asset_id_of(s) {
            Some(id) => if st.seen.contains(id) {
                st
            } else {
                ScanState {
                    found: st.found.push(
                        AssetView {
                            asset_id: id,
                            asset_type: ty,
                            instance_name: node.name@,
                            instance_class: node.class@,
                            referent: node.referent,
                            is_downloaded: false,
                        },
                    ),
                    seen: st.seen.push(id),
                }
            },
            None => st,
        },
        _ => st,
    }
}

/// The properties `ps` of `node`, in order.
pub open spec fn props_fold(node: PlaceNode, ps: Seq<(String, PropValue)>, st: ScanState) -> ScanState
    decreases ps.len(),
{
    if ps.len() == 0 {
        st
    } else {
        prop_step(node, ps.last().0@, ps.last().1, props_fold(node, ps.drop_last(), st))
    }
}

/// The instances `order` of `nodes`, in order.
pub open spec fn nodes_fold(nodes: Seq<PlaceNode>, order: Seq<usize>, st: ScanState) -> ScanState
    decreases order.len(),
{
    if order.len() == 0 {
        st
    } else {
        let n = nodes[order.last() as int];
        props_fold(n, n.properties@, nodes_fold(nodes, order.drop_last(), st))
    }
}

/// The references a scan of the place finds, in the order found.
pub open spec fn scan_spec(t: PlaceTree) -> Seq<AssetView> {
    nodes_fold(t.nodes(), visit(t.child_lists(), t.roots()), scan_start()).found
}

/// The kind of asset property `key` names (see `asset_type_for`).
fn asset_type(key: &str) -> (r: Option<&'static str>)
    ensures
        match asset_type_for(key@) {
            Some(t) => r is Some && r->Some_0@ == t,
            None => r is None,
        },
{
    if str_eq(key, "MeshId") || str_eq(key, "MeshID") {
        Some("Mesh")
    } else if str_eq(key, "TextureId") || str_eq(key, "TextureID") || str_eq(key, "Texture") {
        Some("Texture")
    } else if str_eq(key, "SoundId") || str_eq(key, "SoundID") {
        Some("Sound")
    } else if str_eq(key, "AnimationId") {
        Some("Animation")
    } else {
        None
    }
}

/// The texts of a list of strings.
pub open spec fn string_views(v: Seq<String>) -> Seq<Seq<char>> {
    v.map_values(|s: String| s@)
}

/// The views of a list of references.
pub open spec fn asset_views(v: Seq<DiscoveredAsset>) -> Seq<AssetView> {
    v.map_values(|a: DiscoveredAsset| a@)
}

/// Whether `id` is one of `seen`.
fn seen_contains(seen: &Vec<String>, id: &str) -> (r: bool)
    ensures
        r == string_views(seen@).contains(id@),
{
    let n = seen.len();
    let mut i: usize = 0;
    while i < n
        invariant
            n == seen@.len(),
            i <= n,
            forall|j: int| 0 <= j < i ==> seen@[j]@ != id@,
        decreases n - i,
    {
        if str_eq(seen[i].as_str(), id) {
            assert(string_views(seen@)[i as int] == id@);
            return true;
        }
        i = i + 1;
    }
    proof {
        if string_views(seen@).contains(id@) {
            let k = choose|k: int| 0 <= k < n && #[trigger] string_views(seen@)[k] == id@;
            assert(seen@[k]@ == id@);
        }
    }
    false
}

/// Walks the place's instances, starting from the root's children and
/// always continuing with the most recently pushed one, and collects each
/// mesh, texture, sound or animation reference whose asset id has not been
/// seen yet.
pub fn scan_place_assets(tree: &PlaceTree) -> (out: Vec<DiscoveredAsset>)
    ensures
        asset_views(out@) == scan_spec(*tree),
        forall|i: usize, j: int, id: Seq<char>|
            i < tree.nodes().len() && 0 <= j < tree.nodes()[i as int].properties@.len()
                && #[trigger] prop_names_id(
                tree.nodes()[i as int].properties@[j].0@,
                tree.nodes()[i as int].properties@[j].1,
                id,
            ) ==> found_ids(asset_views(out@)).contains(id),
        all_backed(tree.nodes(), asset_views(out@)),
{
    proof {
        use_type_invariant(tree);
    }
    let ghost ch = tree.child_lists();
    let ghost nodes = tree.nodes();
    let mut out: Vec<DiscoveredAsset> = Vec::new();
    let mut seen: Vec<String> = Vec::new();
    let mut stack: Vec<usize> = Vec::new();
    let nroots = tree.roots.len();
    let mut q: usize = 0;
    while q < nroots
        invariant
            nroots == tree.roots@.len(),
            q <= nroots,
            stack@ == tree.roots@.take(q as int),
        decreases nroots - q,
    {
        stack.push(tree.roots[q]);
        assert(stack@ =~= tree.roots@.take(q + 1));
        q = q + 1;
    }
    assert(stack@ =~= tree.roots@);
    let ghost mut visited: Seq<usize> = Seq::empty();
    assert(asset_views(out@) =~= Seq::<AssetView>::empty());
    assert(string_views(seen@) =~= Seq::<Seq<char>>::empty());
    while stack.len() > 0
        invariant
            ch == tree.child_lists(),
            nodes == tree.nodes(),
            tree.children@.len() == tree.nodes@.len(),
            children_ordered(ch),
            all_below(stack@, ch.len() as int),
            visited + visit(ch, stack@) == visit(ch, tree.roots()),
            asset_views(out@) == nodes_fold(nodes, visited, scan_start()).found,
            string_views(seen@) == nodes_fold(nodes, visited, scan_start()).seen,
        decreases stack_weight(ch, stack@),
    {
        let ghost old_stack = stack@;
        let r = stack.pop().unwrap();
        proof {
            lemma_pop_weight(ch, old_stack);
            lemma_stack_weight_nonneg(ch, old_stack.drop_last() + ch[r as int]);
            assert(r < ch.len());
        }
        let kids = &tree.children[r];
        let nk = kids.len();
        let mut k: usize = 0;
        while k < nk
            invariant
                ch == tree.child_lists(),
                tree.children@.len() == tree.nodes@.len(),
                r < tree.children@.len(),
                *kids == tree.children@[r as int],
                nk == kids@.len(),
                k <= nk,
                stack@ == old_stack.drop_last() + kids@.take(k as int),
            decreases nk - k,
        {
            stack.push(kids[k]);
            assert(stack@ =~= old_stack.drop_last() + kids@.take(k + 1));
            k = k + 1;
        }
        proof {
            assert(kids@ == ch[r as int]);
            assert(kids@.take(nk as int) =~= kids@);
            assert(visit(ch, old_stack) == seq![r] + visit(ch, stack@));
            assert(visited.push(r) + visit(ch, stack@) =~= visited + visit(ch, old_stack));
            assert forall|j: int| 0 <= j < stack@.len() implies #[trigger] stack@[j] < ch.len() by {
                if j >= old_stack.drop_last().len() {
                    assert(stack@[j] == ch[r as int][j - old_stack.drop_last().len()]);
                } else {
                    assert(stack@[j] == old_stack[j]);
                }
            }
        }
        let node = &tree.nodes[r];
        let np = node.properties.len();
        let ghost before = nodes_fold(nodes, visited, scan_start());
        let mut j: usize = 0;
        while j < np
            invariant
                *node == nodes[r as int],
                np == node.properties@.len(),
                j <= np,
                asset_views(out@) == props_fold(*node, node.properties@.take(j as int), before).found,
                string_views(seen@) == props_fold(*node, node.properties@.take(j as int), before).seen,
            decreases np - j,
        {
            let ghost st = props_fold(*node, node.properties@.take(j as int), before);
            proof {
                assert(node.properties@.take(j + 1).drop_last() =~= node.properties@.take(j as int));
            }
            let key = &node.properties[j].0;
            let val = &node.properties[j].1;
            match asset_type(key.as_str()) {
                Some(ty) => {
                    match val {
                        PropValue::Text(s) => {
                            if s.as_str().unicode_len() > 0 {
                                match extract_asset_id(s.as_str()) {
                                    Some(id) => {
                                        if !seen_contains(&seen, id.as_str()) {
                                            let a = DiscoveredAsset {
                                                asset_id: id.clone(),
                                                asset_type: ty,
                                                instance_name: node.name.clone(),
                                                instance_class: node.class.clone(),
                                                referent: node.referent,
                                                is_downloaded: false,
                                            };
                                            let ghost found0 = out@;
                                            let ghost seen0 = seen@;
                                            out.push(a);
                                            seen.push(id);
                                            assert(asset_views(out@) =~= asset_views(found0).push(
                                                out@.last()@,
                                            ));
                                            assert(string_views(seen@) =~= string_views(
                                                seen0,
                                            ).push(seen@.last()@));
                                        }
                                    },
                                    None => {},
                                }
                            }
                        },
                        PropValue::Other => {},
                    }
                },
                None => {},
            }
            j = j + 1;
        }
        proof {
            assert(node.properties@.take(np as int) =~= node.properties@);
            assert(visited.push(r).drop_last() =~= visited);
            visited = visited.push(r);
        }
    }
    proof {
        assert(visited + visit(ch, stack@) =~= visited);
        assert forall|i: usize, j: int, id: Seq<char>|
            i < tree.nodes().len() && 0 <= j < tree.nodes()[i as int].properties@.len()
                && #[trigger] prop_names_id(
                tree.nodes()[i as int].properties@[j].0@,
                tree.nodes()[i as int].properties@[j].1,
                id,
            ) implies found_ids(asset_views(out@)).contains(id) by {
            law_scan_finds_every_reference(*tree, i, j, id);
        }
        law_scan_reports_only_references(*tree);
    }
    out
}

// ---------------------------------------------------------------------------
// Laws
// ---------------------------------------------------------------------------

/// The ids of a list of found references.
pub open spec fn found_ids(found: Seq<AssetView>) -> Seq<Seq<char>> {
    found.map_values(|a: AssetView| a.asset_id)
}

/// The scan's bookkeeping is consistent: the ids seen are the ids found,
/// and none occurs twice.
pub open spec fn scan_consistent(st: ScanState) -> bool {
    &&& found_ids(st.found) == st.seen
    &&& st.seen.no_duplicates()
}

proof fn lemma_prop_step_consistent(node: PlaceNode, key: Seq<char>, v: PropValue, st: ScanState)
    requires
        scan_consistent(st),
    ensures
        scan_consistent(prop_step(node, key, v, st)),
{
    let next = prop_step(node, key, v, st);
    if next != st {
        assert(found_ids(next.found) =~= found_ids(st.found).push(next.found.last().asset_id));
    }
}

proof fn lemma_props_fold_consistent(node: PlaceNode, ps: Seq<(String, PropValue)>, st: ScanState)
    requires
        scan_consistent(st),
    ensures
        scan_consistent(props_fold(node, ps, st)),
    decreases ps.len(),
{
    if ps.len() > 0 {
        lemma_props_fold_consistent(node, ps.drop_last(), st);
        lemma_prop_step_consistent(node, ps.last().0@, ps.last().1, props_fold(node, ps.drop_last(), st));
    }
}

proof fn lemma_nodes_fold_consistent(nodes: Seq<PlaceNode>, order: Seq<usize>, st: ScanState)
    requires
        scan_consistent(st),
    ensures
        scan_consistent(nodes_fold(nodes, order, st)),
    decreases order.len(),
{
    if order.len() > 0 {
        lemma_nodes_fold_consistent(nodes, order.drop_last(), st);
        let n = nodes[order.last() as int];
        lemma_props_fold_consistent(n, n.properties@, nodes_fold(nodes, order.drop_last(), st));
    }
}

/// A property names asset `id`: it is a mesh, texture, sound or animation
/// property whose value is a non-empty reference to that id.
pub open spec fn prop_names_id(key: Seq<char>, v: PropValue, id: Seq<char>) -> bool {
    &&& asset_type_for(key) is Some
    &&& match reference_text(v) {
        Some(s) => asset_id_of(s) == Some(id),
        None => false,
    }
}

proof fn lemma_prop_step_seen(node: PlaceNode, key: Seq<char>, v: PropValue, st: ScanState, x: Seq<
    char,
>)
    ensures
        st.seen.contains(x) ==> prop_step(node, key, v, st).seen.contains(x),
        prop_names_id(key, v, x) ==> prop_step(node, key, v, st).seen.contains(x),
{
    let next = prop_step(node, key, v, st);
    match (asset_type_for(key), reference_text(v)) {
        (Some(ty), Some(t)) => match asset_id_of(t) {
            Some(id) => if !st.seen.contains(id) {
                assert(next.seen == st.seen.push(id));
                if st.seen.contains(x) {
                    let k = choose|k: int| 0 <= k < st.seen.len() && st.seen[k] == x;
                    assert(next.seen[k] == x);
                }
                assert(next.seen[st.seen.len() as int] == id);
            },
            None => {},
        },
        _ => {},
    }
}

proof fn lemma_props_fold_keeps(node: PlaceNode, ps: Seq<(String, PropValue)>, st: ScanState, x: Seq<
    char,
>)
    requires
        st.seen.contains(x),
    ensures
        props_fold(node, ps, st).seen.contains(x),
    decreases ps.len(),
{
    if ps.len() > 0 {
        lemma_props_fold_keeps(node, ps.drop_last(), st, x);
        lemma_prop_step_seen(node, ps.last().0@, ps.last().1, props_fold(node, ps.drop_last(), st), x);
    }
}

proof fn lemma_props_fold_finds(
    node: PlaceNode,
    ps: Seq<(String, PropValue)>,
    st: ScanState,
    j: int,
    x: Seq<char>,
)
    requires
        0 <= j < ps.len(),
        prop_names_id(ps[j].0@, ps[j].1, x),
    ensures
        props_fold(node, ps, st).seen.contains(x),
    decreases ps.len(),
{
    let prev = props_fold(node, ps.drop_last(), st);
    if j == ps.len() - 1 {
        lemma_prop_step_seen(node, ps.last().0@, ps.last().1, prev, x);
    } else {
        assert(ps.drop_last()[j] == ps[j]);
        lemma_props_fold_finds(node, ps.drop_last(), st, j, x);
        lemma_prop_step_seen(node, ps.last().0@, ps.last().1, prev, x);
    }
}

proof fn lemma_nodes_fold_keeps(nodes: Seq<PlaceNode>, order: Seq<usize>, st: ScanState, x: Seq<char>)
    requires
        st.seen.contains(x),
    ensures
        nodes_fold(nodes, order, st).seen.contains(x),
    decreases order.len(),
{
    if order.len() > 0 {
        lemma_nodes_fold_keeps(nodes, order.drop_last(), st, x);
        let n = nodes[order.last() as int];
        lemma_props_fold_keeps(n, n.properties@, nodes_fold(nodes, order.drop_last(), st), x);
    }
}

proof fn lemma_nodes_fold_finds(
    nodes: Seq<PlaceNode>,
    order: Seq<usize>,
    st: ScanState,
    m: int,
    j: int,
    x: Seq<char>,
)
    requires
        0 <= m < order.len(),
        0 <= j < nodes[order[m] as int].properties@.len(),
        prop_names_id(
            nodes[order[m] as int].properties@[j].0@,
            nodes[order[m] as int].properties@[j].1,
            x,
        ),
    ensures
        nodes_fold(nodes, order, st).seen.contains(x),
    decreases order.len(),
{
    let prev = nodes_fold(nodes, order.drop_last(), st);
    let n = nodes[order.last() as int];
    if m == order.len() - 1 {
        lemma_props_fold_finds(n, n.properties@, prev, j, x);
    } else {
        assert(order.drop_last()[m] == order[m]);
        lemma_nodes_fold_finds(nodes, order.drop_last(), st, m, j, x);
        lemma_props_fold_keeps(n, n.properties@, prev, x);
    }
}

/// A scan finds every asset a place refers to: each id that a mesh,
/// texture, sound or animation property of any of its instances names is
/// among the ids found.
pub proof fn law_scan_finds_every_reference(t: PlaceTree, i: usize, j: int, id: Seq<char>)
    requires
        t.child_lists().len() == t.nodes().len(),
        children_ordered(t.child_lists()),
        all_below(t.roots(), t.nodes().len() as int),
        rooted(t.child_lists(), t.roots()),
        i < t.nodes().len(),
        0 <= j < t.nodes()[i as int].properties@.len(),
        prop_names_id(
            t.nodes()[i as int].properties@[j].0@,
            t.nodes()[i as int].properties@[j].1,
            id,
        ),
    ensures
        found_ids(scan_spec(t)).contains(id),
{
    let ch = t.child_lists();
    let order = visit(ch, t.roots());
    lemma_visit_reaches_all(ch, t.roots(), i as int);
    let m = choose|m: int| 0 <= m < order.len() && order[m] == i;
    lemma_nodes_fold_finds(t.nodes(), order, scan_start(), m, j, id);
    assert(found_ids(scan_start().found) =~= scan_start().seen);
    lemma_nodes_fold_consistent(t.nodes(), order, scan_start());
}

/// Property `j` of `node` is where the found reference `a` comes from: it
/// names `a`'s id, its kind is `a`'s type, and `a` carries the instance's
/// name, class and referent, not yet downloaded.
pub open spec fn prop_backs(node: PlaceNode, j: int, a: AssetView) -> bool {
    &&& 0 <= j < node.properties@.len()
    &&& prop_names_id(node.properties@[j].0@, node.properties@[j].1, a.asset_id)
    &&& asset_type_for(node.properties@[j].0@) == Some(a.asset_type)
    &&& a.instance_name == node.name@
    &&& a.instance_class == node.class@
    &&& a.referent == node.referent
    &&& !a.is_downloaded
}

/// Some property of some instance of `nodes` is where `a` comes from.
pub open spec fn backed_by(nodes: Seq<PlaceNode>, a: AssetView) -> bool {
    exists|i: int, j: int| 0 <= i < nodes.len() && #[trigger] prop_backs(nodes[i], j, a)
}

/// Every reference in `found` comes from a property of `nodes`.
pub open spec fn all_backed(nodes: Seq<PlaceNode>, found: Seq<AssetView>) -> bool {
    forall|k: int| 0 <= k < found.len() ==> backed_by(nodes, #[trigger] found[k])
}

proof fn lemma_props_fold_backed(
    nodes: Seq<PlaceNode>,
    i: int,
    ps: Seq<(String, PropValue)>,
    st: ScanState,
)
    requires
        0 <= i < nodes.len(),
        ps.len() <= nodes[i].properties@.len(),
        forall|j: int| 0 <= j < ps.len() ==> ps[j] == #[trigger] nodes[i].properties@[j],
        all_backed(nodes, st.found),
    ensures
        all_backed(nodes, props_fold(nodes[i], ps, st).found),
    decreases ps.len(),
{
    if ps.len() > 0 {
        let node = nodes[i];
        let prev = props_fold(node, ps.drop_last(), st);
        assert forall|j: int| 0 <= j < ps.drop_last().len() implies ps.drop_last()[j]
            == #[trigger] nodes[i].properties@[j] by {
            assert(ps.drop_last()[j] == ps[j]);
        }
        lemma_props_fold_backed(nodes, i, ps.drop_last(), st);
        let jj = ps.len() - 1;
        assert(ps.last() == node.properties@[jj]);
        let next = prop_step(node, ps.last().0@, ps.last().1, prev);
        if next != prev {
            let a = next.found.last();
            assert(next.found == prev.found.push(a));
            assert(prop_backs(nodes[i], jj, a));
            assert forall|k: int| 0 <= k < next.found.len() implies backed_by(
                nodes,
                #[trigger] next.found[k],
            ) by {
                if k < prev.found.len() {
                    assert(next.found[k] == prev.found[k]);
                }
            }
        }
    }
}

proof fn lemma_nodes_fold_backed(nodes: Seq<PlaceNode>, order: Seq<usize>, st: ScanState)
    requires
        all_below(order, nodes.len() as int),
        all_backed(nodes, st.found),
    ensures
        all_backed(nodes, nodes_fold(nodes, order, st).found),
    decreases order.len(),
{
    if order.len() > 0 {
        assert forall|k: int| 0 <= k < order.drop_last().len() implies #[trigger] order.drop_last()[k]
            < nodes.len() by {
            assert(order.drop_last()[k] == order[k]);
        }
        lemma_nodes_fold_backed(nodes, order.drop_last(), st);
        let i = order.last() as int;
        lemma_props_fold_backed(nodes, i, nodes[i].properties@, nodes_fold(nodes, order.drop_last(), st));
    }
}

/// The walk only visits instances.
proof fn lemma_visit_below(ch: Seq<Seq<usize>>, s: Seq<usize>)
    requires
        children_ordered(ch),
        all_below(s, ch.len() as int),
    ensures
        all_below(visit(ch, s), ch.len() as int),
    decreases stack_weight(ch, s),
{
    if s.len() > 0 {
        lemma_visit_step(ch, s);
        let s2 = s.drop_last() + ch[s.last() as int];
        lemma_visit_below(ch, s2);
        assert forall|k: int| 0 <= k < visit(ch, s).len() implies #[trigger] visit(ch, s)[k] < ch.len() by {
            if k > 0 {
                assert(visit(ch, s)[k] == visit(ch, s2)[k - 1]);
            }
        }
    }
}

/// Every reference a scan finds comes from a property of one of the
/// place's instances: a mesh, texture, sound or animation property that
/// names the reference's id, whose kind is the reference's type, on the
/// instance whose name, class and referent the reference carries; none is
/// marked downloaded.
pub proof fn law_scan_reports_only_references(t: PlaceTree)
    requires
        t.child_lists().len() == t.nodes().len(),
        children_ordered(t.child_lists()),
        all_below(t.roots(), t.nodes().len() as int),
    ensures
        all_backed(t.nodes(), scan_spec(t)),
{
    let ch = t.child_lists();
    lemma_visit_below(ch, t.roots());
    lemma_nodes_fold_backed(t.nodes(), visit(ch, t.roots()), scan_start());
}

/// The kind of asset a property of this name holds, by its literal name.
proof fn lemma_asset_kinds(key: Seq<char>)
    ensures
        key == "MeshId"@ || key == "MeshID"@ ==> asset_type_for(key) == Some("Mesh"@),
        key == "TextureId"@ || key == "TextureID"@ || key == "Texture"@ ==> asset_type_for(key)
            == Some("Texture"@),
        key == "SoundId"@ || key == "SoundID"@ ==> asset_type_for(key) == Some("Sound"@),
        key == "AnimationId"@ ==> asset_type_for(key) == Some("Animation"@),
{
    reveal_strlit("MeshId");
    reveal_strlit("MeshID");
    reveal_strlit("TextureId");
    reveal_strlit("TextureID");
    reveal_strlit("Texture");
    reveal_strlit("SoundId");
    reveal_strlit("SoundID");
    reveal_strlit("AnimationId");
    assert("Texture"@[0] != "SoundId"@[0] && "Texture"@[0] != "SoundID"@[0]);
    assert("TextureId"@[0] != "MeshId"@[0] && "TextureId"@[0] != "MeshID"@[0]);
    assert("TextureID"@[0] != "MeshId"@[0] && "TextureID"@[0] != "MeshID"@[0]);
    assert("Texture"@ != "MeshId"@ && "Texture"@ != "MeshID"@);
    assert("AnimationId"@ != "MeshId"@ && "AnimationId"@ != "MeshID"@);
    assert("AnimationId"@ != "TextureId"@ && "AnimationId"@ != "TextureID"@);
    assert("AnimationId"@ != "Texture"@);
    assert("AnimationId"@ != "SoundId"@ && "AnimationId"@ != "SoundID"@);
}

/// The asset properties a scan recognises, by name: `MeshId` and `MeshID`
/// hold meshes, `TextureId`, `TextureID` and `Texture` textures, `SoundId`
/// and `SoundID` sounds, `AnimationId` animations. The id that such a
/// property's non-empty text names is reported; and when no other property
/// of the place names that id, it is reported with that property's kind,
/// on that property's instance.
pub proof fn law_scan_property_names(t: PlaceTree, i: usize, j: int, id: Seq<char>)
    requires
        t.child_lists().len() == t.nodes().len(),
        children_ordered(t.child_lists()),
        all_below(t.roots(), t.nodes().len() as int),
        rooted(t.child_lists(), t.roots()),
        i < t.nodes().len(),
        0 <= j < t.nodes()[i as int].properties@.len(),
        ({
            let key = t.nodes()[i as int].properties@[j].0@;
            key == "MeshId"@ || key == "MeshID"@ || key == "TextureId"@ || key == "TextureID"@
                || key == "Texture"@ || key == "SoundId"@ || key == "SoundID"@ || key
                == "AnimationId"@
        }),
        t.nodes()[i as int].properties@[j].1 matches PropValue::Text(x) && x@.len() > 0
            && asset_id_of(x@) == Some(id),
    ensures
        found_ids(scan_spec(t)).contains(id),
        (forall|i2: int, j2: int|
            0 <= i2 < t.nodes().len() && 0 <= j2 < t.nodes()[i2].properties@.len() && !(i2 == i
                && j2 == j) ==> !(#[trigger] t.nodes()[i2].properties@[j2].1 matches PropValue::Text(
                y,
            ) && asset_id_of(y@) == Some(id))) ==> exists|k: int|
            0 <= k < scan_spec(t).len() && #[trigger] scan_spec(t)[k].asset_id == id && {
                let key = t.nodes()[i as int].properties@[j].0@;
                let node = t.nodes()[i as int];
                &&& scan_spec(t)[k].asset_type == (if key == "MeshId"@ || key == "MeshID"@ {
                    "Mesh"@
                } else if key == "SoundId"@ || key == "SoundID"@ {
                    "Sound"@
                } else if key == "AnimationId"@ {
                    "Animation"@
                } else {
                    "Texture"@
                })
                &&& scan_spec(t)[k].instance_name == node.name@
                &&& scan_spec(t)[k].instance_class == node.class@
                &&& scan_spec(t)[k].referent == node.referent
            },
{
    let node = t.nodes()[i as int];
    let key = node.properties@[j].0@;
    let v = node.properties@[j].1;
    lemma_asset_kinds(key);
    reveal_strlit("MeshId");
    reveal_strlit("MeshID");
    reveal_strlit("TextureId");
    reveal_strlit("TextureID");
    reveal_strlit("Texture");
    reveal_strlit("SoundId");
    reveal_strlit("SoundID");
    reveal_strlit("AnimationId");
    assert(prop_names_id(key, v, id));
    law_scan_finds_every_reference(t, i, j, id);
    let found = scan_spec(t);
    let k = choose|k: int| 0 <= k < found_ids(found).len() && found_ids(found)[k] == id;
    assert(found[k].asset_id == id);
    law_scan_reports_only_references(t);
    if forall|i2: int, j2: int|
        0 <= i2 < t.nodes().len() && 0 <= j2 < t.nodes()[i2].properties@.len() && !(i2 == i && j2
            == j) ==> !(#[trigger] t.nodes()[i2].properties@[j2].1 matches PropValue::Text(y)
            && asset_id_of(y@) == Some(id)) {
        assert(backed_by(t.nodes(), found[k]));
        let (i2, j2) = choose|i2: int, j2: int|
            0 <= i2 < t.nodes().len() && #[trigger] prop_backs(t.nodes()[i2], j2, found[k]);
        assert(i2 == i && j2 == j);
    }
}

/// A scan reports each asset id at most once.
pub proof fn law_scan_ids_distinct(t: PlaceTree)
    ensures
        found_ids(scan_spec(t)).no_duplicates(),
{
    assert(found_ids(scan_start().found) =~= scan_start().seen);
    lemma_nodes_fold_consistent(t.nodes(), visit(t.child_lists(), t.roots()), scan_start());
}

} // verus!
