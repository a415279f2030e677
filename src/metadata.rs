//! Metadata directives: comment lines `#<key>[:<key>]*:<value>` gathered into a tree.
//!
//! The tree is held as its leaves: each leaf is the path of keys that leads to
//! it and its string value. No leaf path is a prefix of another, so a key
//! holds either a value or a subtree, never both.
use crate::layout::Layout;
use crate::text::{chars_of, split_chars, split_on, string_of, trim, trim_chars, views};
use vstd::prelude::*;

verus! {

pub open spec fn path_view(p: Seq<String>) -> Seq<Seq<char>> {
    p.map_values(|s: String| s@)
}

/// `p` is a prefix of `q` (or equal to it).
pub open spec fn is_prefix(p: Seq<Seq<char>>, q: Seq<Seq<char>>) -> bool {
    p.len() <= q.len() && q.take(p.len() as int) == p
}

pub proof fn lemma_prefix_refl(p: Seq<Seq<char>>)
    ensures
        is_prefix(p, p),
{
    assert(p.take(p.len() as int) =~= p);
}

pub proof fn lemma_prefix_antisym(p: Seq<Seq<char>>, q: Seq<Seq<char>>)
    requires
        is_prefix(p, q),
        is_prefix(q, p),
    ensures
        p == q,
{
    assert(q.take(q.len() as int) =~= q);
}

/// Two different leaf paths of which one leads through the other: a tree
/// cannot hold both, since a key would hold a value and a subtree.
pub open spec fn clashes(p: Seq<Seq<char>>, q: Seq<Seq<char>>) -> bool {
    p != q && (is_prefix(p, q) || is_prefix(q, p))
}

/// The tree `m` after a directive sets the leaf at `p` to `v`. A key keeps
/// the kind (value or subtree) it was given first: a directive that would
/// change it is ignored. A value already at `p` is replaced.
pub open spec fn insert_leaf(m: Map<Seq<Seq<char>>, Seq<char>>, p: Seq<Seq<char>>, v: Seq<char>) -> Map<
    Seq<Seq<char>>,
    Seq<char>,
> {
    if exists|q: Seq<Seq<char>>| m.dom().contains(q) && clashes(p, q) {
        m
    } else {
        m.insert(p, v)
    }
}

/// One leaf of a metadata tree.
pub struct MetaEntry {
    pub path: Vec<String>,
    pub value: String,
}

/// A metadata tree, by its leaves.
pub struct MetadataTree {
    pub entries: Vec<MetaEntry>,
    /// Paths of keys that hold a subtree, kept even where no leaf lies below.
    pub branches: Vec<Vec<String>>,
}

pub open spec fn leaves_map(s: Seq<MetaEntry>) -> Map<Seq<Seq<char>>, Seq<char>>
    decreases s.len(),
{
    if s.len() == 0 {
        Map::empty()
    } else {
        leaves_map(s.drop_last()).insert(path_view(s.last().path@), s.last().value@)
    }
}

pub proof fn lemma_leaves_dom(s: Seq<MetaEntry>, q: Seq<Seq<char>>)
    ensures
        leaves_map(s).dom().contains(q) <==> exists|i: int|
            0 <= i < s.len() && path_view(s[i].path@) == q,
    decreases s.len(),
{
    if s.len() > 0 {
        lemma_leaves_dom(s.drop_last(), q);
        if exists|i: int| 0 <= i < s.len() - 1 && path_view(s.drop_last()[i].path@) == q {
            let i = choose|i: int| 0 <= i < s.len() - 1 && path_view(s.drop_last()[i].path@) == q;
            assert(s[i] == s.drop_last()[i]);
        }
        if exists|i: int| 0 <= i < s.len() && path_view(s[i].path@) == q {
            let i = choose|i: int| 0 <= i < s.len() && path_view(s[i].path@) == q;
            if i < s.len() - 1 {
                assert(s[i] == s.drop_last()[i]);
            }
        }
    }
}

pub proof fn lemma_leaves_update(s: Seq<MetaEntry>, j: int, e: MetaEntry)
    requires
        0 <= j < s.len(),
        path_view(s[j].path@) == path_view(e.path@),
        forall|a: int, b: int|
            0 <= a < s.len() && 0 <= b < s.len() && a != b ==> path_view(s[a].path@)
                != path_view(s[b].path@),
    ensures
        leaves_map(s.update(j, e)) == leaves_map(s).insert(path_view(e.path@), e.value@),
    decreases s.len(),
{
    let t = s.update(j, e);
    if j == s.len() - 1 {
        assert(t.drop_last() =~= s.drop_last());
        assert(leaves_map(t) =~= leaves_map(s).insert(path_view(e.path@), e.value@));
    } else {
        assert(t.drop_last() =~= s.drop_last().update(j, e));
        lemma_leaves_update(s.drop_last(), j, e);
        assert(path_view(s.last().path@) != path_view(s[j].path@));
        assert(leaves_map(t) =~= leaves_map(s).insert(path_view(e.path@), e.value@));
    }
}

impl View for MetadataTree {
    type V = Map<Seq<Seq<char>>, Seq<char>>;

    open spec fn view(&self) -> Self::V {
        leaves_map(self.entries@)
    }
}

fn path_prefix_check(p: &Vec<String>, q: &Vec<String>) -> (r: bool)
    ensures
        r == is_prefix(path_view(p@), path_view(q@)),
{
    if p.len() > q.len() {
        return false;
    }
    let mut i: usize = 0;
    while i < p.len()
        invariant
            i <= p.len() <= q.len(),
            forall|j: int| 0 <= j < i ==> p@[j]@ == q@[j]@,
        decreases p.len() - i,
    {
        if p[i] != q[i] {
            assert(path_view(q@).take(p.len() as int)[i as int] != path_view(p@)[i as int]);
            return false;
        }
        i += 1;
    }
    assert(path_view(q@).take(p.len() as int) =~= path_view(p@));
    true
}

impl MetadataTree {
    /// The paths of the subtrees that the tree holds even when empty.
    pub open spec fn branch_paths(&self) -> Seq<Seq<Seq<char>>> {
        self.branches@.map_values(|p: Vec<String>| path_view(p@))
    }

    /// No leaf lies at, or above, a kept subtree.
    pub open spec fn branches_ok(&self) -> bool {
        forall|q: Seq<Seq<char>>, i: int|
            #[trigger] self@.dom().contains(q) && 0 <= i < self.branch_paths().len() ==> !is_prefix(
                q,
                #[trigger] self.branch_paths()[i],
            )
    }

    /// No leaf path is a prefix of another one.
    pub open spec fn wf(&self) -> bool {
        forall|a: int, b: int|
            0 <= a < self.entries@.len() && 0 <= b < self.entries@.len() && a != b
                ==> !is_prefix(path_view(self.entries@[a].path@), path_view(self.entries@[b].path@))
    }

    pub fn new() -> (r: MetadataTree)
        ensures
            r.wf(),
            r@ == Map::<Seq<Seq<char>>, Seq<char>>::empty(),
            r.branches@.len() == 0,
    {
        MetadataTree { entries: Vec::new(), branches: Vec::new() }
    }

    /// Applies one directive: the leaf at `path` gets `value`. Directives build
    /// a tree without kept empty subtrees.
    pub fn insert(&mut self, path: Vec<String>, value: String)
        requires
            old(self).wf(),
            old(self).branches@.len() == 0,
        ensures
            final(self).wf(),
            final(self).branches@.len() == 0,
            final(self)@ == insert_leaf(old(self)@, path_view(path@), value@),
    {
        let ghost s = self.entries@;
        let ghost p = path_view(path@);
        let mut found: usize = self.entries.len();
        let mut i: usize = 0;
        while i < self.entries.len()
            invariant
                self.entries@ == s,
                self.branches@.len() == 0,
                p == path_view(path@),
                s == old(self).entries@,
                self.wf(),
                i <= s.len(),
                found == s.len() || (found < i && path_view(s[found as int].path@) == p),
                forall|a: int| 0 <= a < i ==> !clashes(p, #[trigger] path_view(s[a].path@)),
                found == s.len() ==> forall|a: int|
                    0 <= a < i ==> path_view(#[trigger] s[a].path@) != p,
            decreases s.len() - i,
        {
            let a = path_prefix_check(&path, &self.entries[i].path);
            let b = path_prefix_check(&self.entries[i].path, &path);
            assert(self.entries@[i as int] == s[i as int]);
            assert(a == is_prefix(p, path_view(s[i as int].path@)));
            assert(b == is_prefix(path_view(s[i as int].path@), p));
            proof {
                if a && b {
                    lemma_prefix_antisym(p, path_view(s[i as int].path@));
                }
                lemma_prefix_refl(p);
            }
            if a && b {
                found = i;
            } else if a || b {
                proof {
                    lemma_leaves_dom(s, path_view(s[i as int].path@));
                    assert(leaves_map(s).dom().contains(path_view(s[i as int].path@)));
                    assert(clashes(p, path_view(s[i as int].path@)));
                }
                return;
            }
            i += 1;
        }
        assert forall|q: Seq<Seq<char>>| leaves_map(s).dom().contains(q) implies !clashes(p, q) by {
            lemma_leaves_dom(s, q);
        }
        let e = MetaEntry { path, value };
        if found < self.entries.len() {
            proof {
                assert forall|a: int, b: int|
                    0 <= a < s.len() && 0 <= b < s.len() && a != b implies path_view(s[a].path@)
                    != path_view(s[b].path@) by {
                    lemma_prefix_refl(path_view(s[a].path@));
                }
                lemma_leaves_update(s, found as int, e);
            }
            self.entries.set(found, e);
            assert(self.entries@ =~= s.update(found as int, e));
            assert(forall|a: int| 0 <= a < s.len() ==> path_view(#[trigger] self.entries@[a].path@)
                == path_view(s[a].path@));
        } else {
            self.entries.push(e);
            assert(self.entries@.drop_last() =~= s);
            assert(forall|a: int| 0 <= a < s.len() ==> #[trigger] self.entries@[a] == s[a]);
        }
    }
}

/// The key path and value of a trimmed directive line `#k1:...:kn:v`: the
/// text after `#`, split on every `:`, gives the keys and, last, the value.
/// A line with no `:` after its `#` is no directive.
pub open spec fn directive(t: Seq<char>) -> Option<(Seq<Seq<char>>, Seq<char>)> {
    if t.len() > 0 && t[0] == '#' {
        let segs = split_on(t.drop_first(), ':');
        if segs.len() >= 2 {
            Some((segs.drop_last(), segs.last()))
        } else {
            None
        }
    } else {
        None
    }
}

/// The tree that the lines `ls` build, directive after directive.
pub open spec fn metadata_lines(ls: Seq<Seq<char>>) -> Map<Seq<Seq<char>>, Seq<char>>
    decreases ls.len(),
{
    if ls.len() == 0 {
        Map::empty()
    } else {
        let m = metadata_lines(ls.drop_last());
        match directive(trim(ls.last())) {
            Some(d) => insert_leaf(m, d.0, d.1),
            None => m,
        }
    }
}

/// The metadata tree of a model text.
pub open spec fn metadata_of(text: Seq<char>) -> Map<Seq<Seq<char>>, Seq<char>> {
    metadata_lines(split_on(text, '\n'))
}

fn strings_of(v: &Vec<Vec<char>>, n: usize) -> (r: Vec<String>)
    requires
        n <= v.len(),
    ensures
        path_view(r@) == views(v@).take(n as int),
{
    let mut r: Vec<String> = Vec::new();
    let mut i: usize = 0;
    while i < n
        invariant
            i <= n <= v.len(),
            path_view(r@) == views(v@).take(i as int),
        decreases n - i,
    {
        let s = string_of(v[i].as_slice());
        let ghost before = r@;
        r.push(s);
        assert(r@ =~= before.push(s));
        assert(path_view(r@) =~= path_view(before).push(s@));
        i += 1;
        assert(path_view(r@) =~= views(v@).take(i as int));
    }
    r
}

/// Reads every metadata directive of a model text into a tree.
pub fn extract_metadata(model: &str) -> (r: MetadataTree)
    ensures
        r.wf(),
        r.branches@.len() == 0,
        r@ == metadata_of(model@),
{
    let chars = chars_of(model);
    let lines = split_chars(&chars, '\n');
    let ghost ls = split_on(model@, '\n');
    let mut tree = MetadataTree::new();
    let mut i: usize = 0;
    assert(ls.take(0) =~= Seq::<Seq<char>>::empty());
    while i < lines.len()
        invariant
            i <= lines.len(),
            views(lines@) == ls,
            tree.wf(),
            tree.branches@.len() == 0,
            tree@ == metadata_lines(ls.take(i as int)),
        decreases lines.len() - i,
    {
        assert(ls.take(i + 1).drop_last() =~= ls.take(i as int));
        assert(ls.take(i + 1).last() == lines@[i as int]@);
        let line = trim_chars(&lines[i]);
        if line.len() > 0 && line[0] == '#' {
            let body = crate::text::copy_range(&line, 1, line.len());
            assert(body@ =~= line@.drop_first());
            let segs = split_chars(&body, ':');
            proof {
                crate::text::lemma_split_on_len(body@, ':');
            }
            if segs.len() >= 2 {
                let path = strings_of(&segs, segs.len() - 1);
                let value = string_of(segs[segs.len() - 1].as_slice());
                assert(views(segs@).take(segs.len() - 1) =~= views(segs@).drop_last());
                tree.insert(path, value);
            }
        }
        i += 1;
    }
    assert(ls.take(lines.len() as int) =~= ls);
    tree
}

} // verus!

verus! {

pub open spec fn word_position() -> Seq<char> {
    seq!['p', 'o', 's', 'i', 't', 'i', 'o', 'n']
}

/// The metadata tree `{position: {<name>: "<x>,<y>"}}` of a layout.
pub open spec fn position_tree(l: Map<Seq<char>, (Seq<char>, Seq<char>)>) -> Map<
    Seq<Seq<char>>,
    Seq<char>,
> {
    Map::new(
        |p: Seq<Seq<char>>| p.len() == 2 && p[0] == word_position() && l.dom().contains(p[1]),
        |p: Seq<Seq<char>>| l[p[1]].0 + seq![','] + l[p[1]].1,
    )
}

/// Writes a layout as the `position` subtree of a metadata tree; the
/// subtree stands there even for an empty layout.
pub fn layout_to_metadata(layout: &Layout) -> (r: MetadataTree)
    ensures
        r.wf(),
        r@ == position_tree(layout@),
        r.branch_paths() == seq![seq![word_position()]],
        r.branches_ok(),
{
    let mut tree = MetadataTree::new();
    let mut i: usize = 0;
    let ghost s = layout.entries@;
    assert(s.take(0) =~= Seq::<crate::layout::LayoutEntry>::empty());
    assert(tree@ =~= position_tree(crate::layout::entries_map(s.take(0))));
    while i < layout.entries.len()
        invariant
            s == layout.entries@,
            i <= s.len(),
            tree.wf(),
            tree.branches@.len() == 0,
            tree@ == position_tree(crate::layout::entries_map(s.take(i as int))),
        decreases s.len() - i,
    {
        let e = &layout.entries[i];
        let mut value = chars_of(e.x.as_str());
        value.push(',');
        let y = chars_of(e.y.as_str());
        let mut k: usize = 0;
        let ghost start = value@;
        while k < y.len()
            invariant
                k <= y.len(),
                value@ == start + y@.take(k as int),
            decreases y.len() - k,
        {
            value.push(y[k]);
            k += 1;
            assert(value@ =~= start + y@.take(k as int));
        }
        assert(y@.take(y.len() as int) =~= y@);
        let pos = vec!['p', 'o', 's', 'i', 't', 'i', 'o', 'n'];
        let path = vec![string_of(pos.as_slice()), e.name.clone()];
        let ghost p = path_view(path@);
        assert(pos@ =~= word_position());
        assert(p =~= seq![word_position(), e.name@]);
        let ghost m = tree@;
        assert forall|q: Seq<Seq<char>>| m.dom().contains(q) implies !clashes(p, q) by {
            if is_prefix(p, q) {
                assert(q =~= q.take(2));
            }
            if is_prefix(q, p) {
                assert(p =~= p.take(2));
            }
        }
        let v = string_of(value.as_slice());
        assert(v@ == e.x@ + seq![','] + e.y@);
        tree.insert(path, v);
        assert(tree@ == m.insert(p, v@));
        assert(s.take(i + 1).drop_last() =~= s.take(i as int));
        assert(s.take(i + 1).last() == s[i as int]);
        let ghost before = crate::layout::entries_map(s.take(i as int));
        let ghost after = crate::layout::entries_map(s.take(i + 1));
        assert(after == before.insert(e.name@, (e.x@, e.y@)));
        assert forall|q: Seq<Seq<char>>| #[trigger] position_tree(after).dom().contains(q) <==> m.insert(p, v@).dom().contains(q) by {
            if q.len() == 2 && q[0] == word_position() && q[1] == e.name@ {
                assert(q =~= p);
            }
        }
        assert forall|q: Seq<Seq<char>>| #[trigger] position_tree(after).dom().contains(q) implies position_tree(after)[q] == m.insert(p, v@)[q] by {
            if q[1] == e.name@ {
                assert(q =~= p);
            } else {
                assert(q != p);
            }
        }
        assert(position_tree(after) =~= m.insert(p, v@));
        i += 1;
    }
    assert(s.take(s.len() as int) =~= s);
    let pos = vec!['p', 'o', 's', 'i', 't', 'i', 'o', 'n'];
    assert(pos@ =~= word_position());
    let branch = vec![string_of(pos.as_slice())];
    tree.branches.push(branch);
    assert(path_view(branch@) =~= seq![word_position()]);
    assert(tree.branch_paths() =~= seq![seq![word_position()]]);
    assert forall|q: Seq<Seq<char>>, i: int|
        #[trigger] tree@.dom().contains(q) && 0 <= i < tree.branch_paths().len() implies !is_prefix(
        q,
        #[trigger] tree.branch_paths()[i],
    ) by {}
    tree
}

/// Directives `#a:b:u` then `#a:c:w`, with `b` and `c` different, give the
/// tree `{a: {b: u, c: w}}`: the second directive enters the branch that the
/// first one made.
pub proof fn lemma_sibling_directives(a: Seq<char>, b: Seq<char>, c: Seq<char>, u: Seq<char>, w: Seq<char>)
    requires
        b != c,
    ensures
        insert_leaf(insert_leaf(Map::empty(), seq![a, b], u), seq![a, c], w) == map![seq![a, b] => u, seq![a, c] => w],
{
    let m1 = insert_leaf(Map::empty(), seq![a, b], u);
    assert(m1 == Map::<Seq<Seq<char>>, Seq<char>>::empty().insert(seq![a, b], u));
    assert forall|q: Seq<Seq<char>>| m1.dom().contains(q) implies !clashes(seq![a, c], q) by {
        assert(q == seq![a, b]);
        assert(seq![a, b][1] != seq![a, c][1]);
        assert(seq![a, c].take(2) =~= seq![a, c]);
        assert(seq![a, b].take(2) =~= seq![a, b]);
    }
    assert(insert_leaf(m1, seq![a, c], w) =~= map![seq![a, b] => u, seq![a, c] => w]);
}

} // verus!
