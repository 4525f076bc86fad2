use vstd::prelude::*;
use crate::text::{views, chars_eq, copy_chars, split_at_char, split_chars};
use crate::strings::join_spec;

verus! {

/// A node of a tree of dotted names: its full name, its last component, the
/// node above it and the nodes below it, in the order they were added. Nodes
/// are kept in a `Cache` and refer to each other by their place there.
pub struct Item {
    pub name: Vec<char>,
    pub last_name: Vec<char>,
    pub parent: Option<usize>,
    pub children: Vec<usize>,
}

/// The nodes of a tree, found by their full names, and the last root added.
pub struct Cache {
    pub keys: Vec<Vec<char>>,
    pub items: Vec<Item>,
    pub top: Option<usize>,
}

impl Item {
    /// A node without children.
    pub fn new(name: Vec<char>, last_name: &[char], parent: Option<usize>) -> (r: Item)
        ensures
            r.name@ == name@,
            r.last_name@ == last_name@,
            r.parent == parent,
            r.children@.len() == 0,
    {
        Item { name, last_name: copy_chars(last_name), parent, children: Vec::new() }
    }

    /// Adds a node below this one, after the others.
    pub fn add(&mut self, c: usize)
        ensures
            final(self).children@ == old(self).children@.push(c),
            final(self).name@ == old(self).name@,
            final(self).last_name@ == old(self).last_name@,
            final(self).parent == old(self).parent,
    {
        self.children.push(c);
    }
}

impl Cache {
    /// Well formed: one node per key, each named by its key; a node's parent
    /// comes before it and lists it among its children; every child comes after
    /// its parent and names it as parent.
    pub open spec fn wf(&self) -> bool {
        &&& self.items@.len() == self.keys@.len()
        &&& forall|i: int, j: int| 0 <= i < j < self.keys@.len() ==> #[trigger] self.keys@[i]@ != #[trigger] self.keys@[j]@
        &&& forall|i: int| 0 <= i < self.items@.len() ==> (#[trigger] self.items@[i]).name@ == self.keys@[i]@
        &&& forall|i: int| 0 <= i < self.items@.len() ==> match (#[trigger] self.items@[i]).parent {
            Some(p) => p < i && self.items@[p as int].children@.contains(i as usize),
            None => true,
        }
        &&& forall|i: int, j: int| 0 <= i < self.items@.len() && 0 <= j < self.items@[i].children@.len()
            ==> i < #[trigger] self.items@[i].children@[j] < self.items@.len()
                && self.items@[self.items@[i].children@[j] as int].parent == Some(i as usize)
        &&& self.top matches Some(t) ==> t < self.items@.len()
    }

    /// The place of the node named `k`, if any.
    pub open spec fn index_of(&self, k: Seq<char>) -> Option<int> {
        if exists|i: int| 0 <= i < self.keys@.len() && #[trigger] self.keys@[i]@ == k {
            Some(choose|i: int| 0 <= i < self.keys@.len() && #[trigger] self.keys@[i]@ == k)
        } else {
            None
        }
    }

    /// An empty tree.
    pub fn new() -> (r: Cache)
        ensures
            r.wf(),
            r.items@.len() == 0,
            r.top is None,
    {
        Cache { keys: Vec::new(), items: Vec::new(), top: None }
    }

    /// The place of the node named `key`, if any.
    pub fn get(&self, key: &[char]) -> (r: Option<usize>)
        ensures
            match r {
                Some(i) => i < self.keys@.len() && self.keys@[i as int]@ == key@,
                None => forall|i: int| 0 <= i < self.keys@.len() ==> #[trigger] self.keys@[i]@ != key@,
            },
    {
        let mut i: usize = 0;
        while i < self.keys.len()
            invariant
                i <= self.keys@.len(),
                forall|j: int| 0 <= j < i ==> #[trigger] self.keys@[j]@ != key@,
            decreases self.keys.len() - i,
        {
            if chars_eq(self.keys[i].as_slice(), key) {
                return Some(i);
            }
            i = i + 1;
        }
        None
    }

    /// Adds a node under `key`, or puts it in place of the node already there;
    /// gives its place.
    pub fn insert(&mut self, key: Vec<char>, value: Item) -> (r: usize)
        requires
            old(self).items@.len() == old(self).keys@.len(),
        ensures
            final(self).items@.len() == final(self).keys@.len(),
            r < final(self).items@.len(),
            final(self).keys@[r as int]@ == key@,
            final(self).items@[r as int] == value,
            final(self).top == old(self).top,
            forall|i: int| 0 <= i < old(self).items@.len() && i != r ==> #[trigger] final(self).items@[i] == old(self).items@[i],
            forall|i: int| 0 <= i < old(self).keys@.len() && i != r ==> #[trigger] final(self).keys@[i] == old(self).keys@[i],
            (forall|i: int| 0 <= i < old(self).keys@.len() ==> #[trigger] old(self).keys@[i]@ != key@)
                ==> r == old(self).items@.len() && final(self).items@.len() == old(self).items@.len() + 1,
            (exists|i: int| 0 <= i < old(self).keys@.len() && #[trigger] old(self).keys@[i]@ == key@)
                ==> final(self).items@.len() == old(self).items@.len(),
    {
        match self.get(key.as_slice()) {
            Some(i) => {
                self.items.set(i, value);
                i
            },
            None => {
                let n = self.items.len();
                self.keys.push(key);
                self.items.push(value);
                n
            },
        }
    }
}

/// A copy of a list of places.
fn copy_places(v: &Vec<usize>) -> (r: Vec<usize>)
    ensures
        r@ == v@,
{
    let mut r: Vec<usize> = Vec::new();
    let mut i: usize = 0;
    while i < v.len()
        invariant
            i <= v@.len(),
            r@ == v@.take(i as int),
        decreases v.len() - i,
    {
        r.push(v[i]);
        assert(v@.take(i + 1) =~= v@.take(i as int).push(v@[i as int]));
        i = i + 1;
    }
    assert(v@.take(v@.len() as int) =~= v@);
    r
}

/// The full name of the node that the first `k` components of a line name.
pub open spec fn prefix_name(parts: Seq<Seq<char>>, k: int, sep: char) -> Seq<char> {
    join_spec(parts.take(k), seq![sep])
}

/// Whether some node is named `k`.
pub open spec fn has_key(c: Cache, k: Seq<char>) -> bool {
    exists|j: int| 0 <= j < c.keys@.len() && #[trigger] c.keys@[j]@ == k
}

impl Cache {
    /// Adds `c` below the node at `p`.
    fn add_child(&mut self, p: usize, c: usize)
        requires
            p < old(self).items@.len(),
        ensures
            final(self).items@.len() == old(self).items@.len(),
            final(self).keys@ == old(self).keys@,
            final(self).top == old(self).top,
            final(self).items@[p as int].children@ == old(self).items@[p as int].children@.push(c),
            final(self).items@[p as int].name@ == old(self).items@[p as int].name@,
            final(self).items@[p as int].last_name@ == old(self).items@[p as int].last_name@,
            final(self).items@[p as int].parent == old(self).items@[p as int].parent,
            forall|i: int| 0 <= i < old(self).items@.len() && i != p ==> #[trigger] final(self).items@[i] == old(self).items@[i],
    {
        let it = &self.items[p];
        let mut kids = copy_places(&it.children);
        kids.push(c);
        let n = Item { name: copy_chars(it.name.as_slice()), last_name: copy_chars(it.last_name.as_slice()), parent: it.parent, children: kids };
        self.items.set(p, n);
    }
}

/// Each node is named by its parent's name, the separator and its last
/// component; a node without a parent by its last component alone.
pub open spec fn linked(c: Cache, sep: char) -> bool {
    forall|a: int| 0 <= a < c.items@.len() ==> match (#[trigger] c.items@[a]).parent {
        Some(p) => c.keys@[a]@ == c.keys@[p as int]@ + seq![sep] + c.items@[a].last_name@,
        None => c.keys@[a]@ == c.items@[a].last_name@,
    }
}

/// Builds the tree of the dotted names given one per line: each prefix of a
/// line (its components up to some point, joined by `sep`) is a node, below the
/// node of the prefix one component shorter; a prefix met again adds nothing.
pub fn create_tree(lines: &Vec<Vec<char>>, sep: char) -> (r: Cache)
    ensures
        r.wf(),
        linked(r, sep),
        forall|li: int, k: int| 0 <= li < lines@.len() && 1 <= k <= split_chars(lines@[li]@, sep).len()
            ==> has_key(r, #[trigger] prefix_name(split_chars(lines@[li]@, sep), k, sep)),
{
    let mut cache = Cache::new();
    let mut li: usize = 0;
    while li < lines.len()
        invariant
            li <= lines@.len(),
            cache.wf(),
            linked(cache, sep),
            forall|lj: int, k: int| 0 <= lj < li && 1 <= k <= split_chars(lines@[lj]@, sep).len()
                ==> has_key(cache, #[trigger] prefix_name(split_chars(lines@[lj]@, sep), k, sep)),
        decreases lines.len() - li,
    {
        let parts = split_at_char(lines[li].as_slice(), sep);
        let ghost ps = split_chars(lines@[li as int]@, sep);
        proof {
            crate::text::lemma_split_nonempty(lines@[li as int]@, sep);
        }
        let mut fullname: Vec<char> = Vec::new();
        let mut prev: usize = 0;
        let mut i: usize = 0;
        while i < parts.len()
            invariant
                li < lines@.len(),
                ps == split_chars(lines@[li as int]@, sep),
                views(parts@) == ps,
                i <= parts@.len(),
                cache.wf(),
                linked(cache, sep),
                i > 0 ==> prev < cache.items@.len() && cache.keys@[prev as int]@ == prefix_name(ps, i as int, sep),
                i > 0 ==> fullname@ == prefix_name(ps, i as int, sep),
                forall|lj: int, k: int| 0 <= lj < li && 1 <= k <= split_chars(lines@[lj]@, sep).len()
                    ==> has_key(cache, #[trigger] prefix_name(split_chars(lines@[lj]@, sep), k, sep)),
                forall|k: int| 1 <= k <= i ==> has_key(cache, #[trigger] prefix_name(ps, k, sep)),
            decreases parts.len() - i,
        {
            let ghost before = cache;
            let part = &parts[i];
            proof {
                assert(part@ == ps[i as int]);
                assert(ps.take(i + 1).drop_last() =~= ps.take(i as int));
                if i == 0 {
                    assert(ps.take(1) =~= seq![ps[0]]);
                }
            }
            let ghost fn0 = fullname@;
            if i == 0 {
                fullname = copy_chars(part.as_slice());
            } else {
                fullname.push(sep);
                crate::number::append_chars(&mut fullname, part.as_slice());
            }
            assert(i > 0 ==> fullname@ =~= fn0 + seq![sep] + part@);
            assert(fullname@ =~= prefix_name(ps, i + 1, sep));
            match cache.get(fullname.as_slice()) {
                Some(j) => {
                    prev = j;
                },
                None => {
                    let ghost pv = prev;
                    let parent = if i == 0 { None } else { Some(prev) };
                    let item = Item::new(copy_chars(fullname.as_slice()), part.as_slice(), parent);
                    let idx = cache.insert(copy_chars(fullname.as_slice()), item);

                    if i == 0 {
                        cache.top = Some(idx);
                    } else {
                        cache.add_child(prev, idx);
                    }
                    prev = idx;
                    proof {
                        let c = cache;
                        assert forall|a: int| 0 <= a < c.items@.len() implies match (#[trigger] c.items@[a]).parent {
                            Some(p) => c.keys@[a]@ == c.keys@[p as int]@ + seq![sep] + c.items@[a].last_name@,
                            None => c.keys@[a]@ == c.items@[a].last_name@,
                        } by {
                            if a == idx {
                                if i > 0 {
                                    assert(c.keys@[pv as int]@ == before.keys@[pv as int]@);
                                }
                            } else {
                                assert(c.keys@[a] == before.keys@[a]);
                                if !(i > 0 && a == pv) {
                                    assert(c.items@[a] == before.items@[a]);
                                }
                                if let Some(p) = c.items@[a].parent {
                                    assert(p < a);
                                    assert(c.keys@[p as int] == before.keys@[p as int]);
                                }
                            }
                        }
                        assert forall|a: int, b: int| 0 <= a < b < c.keys@.len() implies #[trigger] c.keys@[a]@ != #[trigger] c.keys@[b]@ by {
                            if b == idx {
                                assert(c.keys@[a]@ == before.keys@[a]@);
                            } else {
                                assert(c.keys@[a]@ == before.keys@[a]@ && c.keys@[b]@ == before.keys@[b]@);
                            }
                        }
                        assert forall|a: int| 0 <= a < c.items@.len() implies (#[trigger] c.items@[a]).name@ == c.keys@[a]@ by {
                            if a != idx && !(i > 0 && a == pv) {
                                assert(c.items@[a] == before.items@[a]);
                            }
                        }
                        assert forall|a: int| 0 <= a < c.items@.len() implies match (#[trigger] c.items@[a]).parent {
                            Some(p) => p < a && c.items@[p as int].children@.contains(a as usize),
                            None => true,
                        } by {
                            if a == idx {
                                if i > 0 {
                                    let pp = c.items@[a].parent->0;
                                    assert(c.items@[pp as int].children@.last() == idx);
                                }
                            } else {
                                assert(c.items@[a].parent == before.items@[a].parent);
                                if let Some(p) = before.items@[a].parent {
                                    let k = choose|k: int| 0 <= k < before.items@[p as int].children@.len()
                                        && before.items@[p as int].children@[k] == a as usize;
                                    if i > 0 && p == pv {
                                        assert(c.items@[p as int].children@ == before.items@[p as int].children@.push(idx));
                                    } else {
                                        assert(c.items@[p as int] == before.items@[p as int]);
                                    }
                                    assert(c.items@[p as int].children@[k] == a as usize);
                                }
                            }
                        }
                        assert forall|a: int, b: int| 0 <= a < c.items@.len() && 0 <= b < c.items@[a].children@.len()
                            implies a < #[trigger] c.items@[a].children@[b] < c.items@.len()
                                && c.items@[c.items@[a].children@[b] as int].parent == Some(a as usize) by {
                            if a == idx {
                            } else if i > 0 && a == pv {
                                assert(c.items@[a].children@ == before.items@[a].children@.push(idx));
                                if b < c.items@[a].children@.len() - 1 {
                                    let ch = before.items@[a].children@[b];
                                    assert(c.items@[a].children@[b] == ch);
                                    assert(c.items@[ch as int].parent == before.items@[ch as int].parent);
                                }
                            } else {
                                assert(c.items@[a] == before.items@[a]);
                                let ch = before.items@[a].children@[b];
                                assert(c.items@[ch as int].parent == before.items@[ch as int].parent);
                            }
                        }
                    }
                },
            }
            proof {
                assert(has_key(cache, prefix_name(ps, i + 1, sep)));
                assert forall|k: int| 1 <= k <= i + 1 implies has_key(cache, #[trigger] prefix_name(ps, k, sep)) by {
                    if k <= i {
                        assert(has_key(before, prefix_name(ps, k, sep)));
                        let j = choose|j: int| 0 <= j < before.keys@.len() && #[trigger] before.keys@[j]@ == prefix_name(ps, k, sep);
                        assert(cache.keys@[j]@ == before.keys@[j]@);
                    }
                }
                assert forall|lj: int, k: int| 0 <= lj < li && 1 <= k <= split_chars(lines@[lj]@, sep).len()
                    implies has_key(cache, #[trigger] prefix_name(split_chars(lines@[lj]@, sep), k, sep)) by {
                    let nm = prefix_name(split_chars(lines@[lj]@, sep), k, sep);
                    assert(has_key(before, nm));
                    let j = choose|j: int| 0 <= j < before.keys@.len() && #[trigger] before.keys@[j]@ == nm;
                    assert(cache.keys@[j]@ == before.keys@[j]@);
                }
            }
            i = i + 1;
        }
        li = li + 1;
    }
    cache
}

/// Whether the node at `i` is the last child of its parent (a root is).
pub open spec fn is_last_spec(c: Cache, i: int) -> bool {
    match c.items@[i].parent {
        None => true,
        Some(p) => c.items@[c.items@[p as int].children@.last() as int].name@ == c.items@[i].name@,
    }
}

impl Item {
    /// Whether this node is the last child of its parent in `cache` (a root is).
    pub fn is_last(&self, cache: &Cache) -> (r: bool)
        requires
            cache.wf(),
            self.parent matches Some(p) ==> p < cache.items@.len() && cache.items@[p as int].children@.len() > 0,
        ensures
            r == match self.parent {
                None => true,
                Some(p) => cache.items@[cache.items@[p as int].children@.last() as int].name@ == self.name@,
            },
    {
        match self.parent {
            Some(p) => {
                let kids = &cache.items[p].children;
                let last = kids[kids.len() - 1];
                chars_eq(self.name.as_slice(), cache.items[last].name.as_slice())
            },
            None => true,
        }
    }
}

/// The nodes of a wf tree with a parent have a parent with children.
proof fn lemma_parent_has_children(c: Cache, i: int)
    requires
        c.wf(),
        0 <= i < c.items@.len(),
    ensures
        c.items@[i].parent matches Some(p) ==> p < i && c.items@[p as int].children@.len() > 0,
{
    if let Some(p) = c.items@[i].parent {
        assert(c.items@[p as int].children@.contains(i as usize));
    }
}

/// The texts of the lines of a visit, in order.
pub open spec fn line_views(v: Seq<Vec<char>>) -> Seq<Seq<char>> {
    v.map_values(|x: Vec<char>| x@)
}

/// Something that writes a tree, one line per node, from a node down.
pub trait Visitor {
    /// Whether the visitor is ready to visit the node at `i` of `c`.
    spec fn ready(&self, c: Cache, i: int) -> bool;

    /// The lines that a visit of the node at `i` writes.
    spec fn lines(&self, c: Cache, i: int) -> Seq<Seq<char>>;

    /// Writes the node at `idx` and the nodes below it.
    fn visit(&mut self, cache: &Cache, idx: usize, out: &mut Vec<Vec<char>>)
        requires
            cache.wf(),
            idx < cache.items@.len(),
            old(self).ready(*cache, idx as int),
        ensures
            line_views(final(out)@) == line_views(old(out)@) + old(self).lines(*cache, idx as int),
            final(self).ready(*cache, idx as int),
            final(self).lines(*cache, idx as int) == old(self).lines(*cache, idx as int);
}

impl Item {
    /// Lets a visitor write the node at `idx` and the nodes below it.
    pub fn accept<T: Visitor>(cache: &Cache, idx: usize, v: &mut T, out: &mut Vec<Vec<char>>)
        requires
            cache.wf(),
            idx < cache.items@.len(),
            old(v).ready(*cache, idx as int),
        ensures
            line_views(final(out)@) == line_views(old(out)@) + old(v).lines(*cache, idx as int),
            final(v).ready(*cache, idx as int),
    {
        v.visit(cache, idx, out);
    }
}

/// Four spaces for each level.
pub open spec fn indent(level: int) -> Seq<char>
    decreases level,
{
    if level <= 0 { Seq::empty() } else { indent(level - 1) + seq![' ', ' ', ' ', ' '] }
}

/// The lines of the node at `i` and of those below it, indented from `level`.
pub open spec fn indent_lines(c: Cache, i: int, level: int) -> Seq<Seq<char>>
    decreases c.items@.len() - i, 1int, 0int,
{
    if 0 <= i < c.items@.len() {
        seq![indent(level) + c.items@[i].last_name@] + kids_indent(c, i, c.items@[i].children@.len() as int, level)
    } else {
        Seq::empty()
    }
}

/// The lines of the first `k` children of the node at `i`, one level deeper.
pub open spec fn kids_indent(c: Cache, i: int, k: int, level: int) -> Seq<Seq<char>>
    decreases c.items@.len() - i, 0int, k,
{
    if k <= 0 || !(0 <= i < c.items@.len()) || k > c.items@[i].children@.len() {
        Seq::empty()
    } else {
        let ch = c.items@[i].children@[k - 1] as int;
        kids_indent(c, i, k - 1, level) + if i < ch < c.items@.len() { indent_lines(c, ch, level + 1) } else { Seq::empty() }
    }
}

/// Writes each node on a line of its own, indented by its depth.
pub struct ItemVisitor {
    pub level: i32,
}

impl ItemVisitor {
    /// A visitor at the top level.
    pub fn new() -> (r: ItemVisitor)
        ensures
            r.level == 0,
    {
        ItemVisitor { level: 0 }
    }
}

impl Visitor for ItemVisitor {
    open spec fn ready(&self, c: Cache, i: int) -> bool {
        0 <= self.level && self.level + (c.items@.len() - i) <= i32::MAX
    }

    open spec fn lines(&self, c: Cache, i: int) -> Seq<Seq<char>> {
        indent_lines(c, i, self.level as int)
    }

    fn visit(&mut self, cache: &Cache, idx: usize, out: &mut Vec<Vec<char>>)
        ensures
            final(self).level == old(self).level,
        decreases cache.items@.len() - idx,
    {
        let item = &cache.items[idx];
        let mut line: Vec<char> = Vec::new();
        let mut n: i32 = 0;
        while n < self.level
            invariant
                0 <= n <= self.level,
                line@ == indent(n as int),
            decreases self.level - n,
        {
            crate::expression::push_str(&mut line, "    ");
            proof {
                reveal_strlit("    ");
                assert(line@ =~= indent(n + 1));
            }
            n = n + 1;
        }
        crate::number::append_chars(&mut line, item.last_name.as_slice());
        let ghost start = line_views(out@);
        out.push(line);
        assert(line_views(out@) =~= start + seq![indent(self.level as int) + item.last_name@]);
        let ghost lv = self.level;
        let mut k: usize = 0;
        while k < item.children.len()
            invariant
                cache.wf(),
                idx < cache.items@.len(),
                item == &cache.items@[idx as int],
                k <= item.children@.len(),
                self.level == lv,
                0 <= lv && lv + (cache.items@.len() - idx) <= i32::MAX,
                line_views(out@) == start + seq![indent(lv as int) + item.last_name@] + kids_indent(*cache, idx as int, k as int, lv as int),
            decreases item.children.len() - k,
        {
            let ch = item.children[k];
            assert(idx < ch < cache.items@.len());
            proof {
                assert(cache.items@[idx as int].children@[k as int] == ch);
            }
            self.level = self.level + 1;
            let ghost before = line_views(out@);
            self.visit(cache, ch, out);
            self.level = self.level - 1;
            proof {
                assert(line_views(out@) =~= start + seq![indent(lv as int) + item.last_name@]
                    + kids_indent(*cache, idx as int, k + 1, lv as int));
            }
            k = k + 1;
        }
    }
}

/// Draws each node after the lines that join it to the nodes above it: one
/// piece for each ancestor below the root, telling whether that ancestor's
/// branch goes on, then the branch of the node itself.
pub struct LineItemVisitor {
    pub vline_last: &'static str,
    pub vline_not_last: &'static str,
    pub hline_last: &'static str,
    pub hline_not_last: &'static str,
}

/// The texts of a list of pieces.
pub open spec fn str_views(s: Seq<&'static str>) -> Seq<Seq<char>> {
    s.map_values(|x: &'static str| x@)
}

/// The piece drawn for ancestor `p`: its branch is over when it is a last child.
pub open spec fn vline_of(v: LineItemVisitor, c: Cache, p: int) -> Seq<char> {
    if is_last_spec(c, p) { v.vline_last@ } else { v.vline_not_last@ }
}

/// The branch drawn for the node at `i` itself.
pub open spec fn hline_of(v: LineItemVisitor, c: Cache, i: int) -> Seq<char> {
    if is_last_spec(c, i) { v.hline_last@ } else { v.hline_not_last@ }
}

/// The pieces for the ancestors of the node at `i` that have a parent, from the
/// nearest up.
pub open spec fn vlist(v: LineItemVisitor, c: Cache, i: int) -> Seq<Seq<char>>
    decreases i,
{
    if 0 <= i < c.items@.len() {
        match c.items@[i].parent {
            Some(p) => if p < i {
                (if c.items@[p as int].parent is Some { seq![vline_of(v, c, p as int)] } else { Seq::empty() })
                    + vlist(v, c, p as int)
            } else {
                Seq::empty()
            },
            None => Seq::empty(),
        }
    } else {
        Seq::empty()
    }
}

/// The pieces written in reverse order, one after the other.
pub open spec fn rev_concat(s: Seq<Seq<char>>) -> Seq<char>
    decreases s.len(),
{
    if s.len() == 0 { Seq::empty() } else { rev_concat(s.drop_first()) + s[0] }
}

/// The line of the node at `i`: for a node with a parent, its branch and the
/// pieces of its ancestors, outermost first; then its last name.
pub open spec fn line_of(v: LineItemVisitor, c: Cache, i: int) -> Seq<char> {
    (if c.items@[i].parent is Some { rev_concat(seq![hline_of(v, c, i)] + vlist(v, c, i)) } else { Seq::empty() })
        + c.items@[i].last_name@
}

/// The lines of the node at `i` and of those below it.
pub open spec fn tree_lines(v: LineItemVisitor, c: Cache, i: int) -> Seq<Seq<char>>
    decreases c.items@.len() - i, 1int, 0int,
{
    if 0 <= i < c.items@.len() {
        seq![line_of(v, c, i)] + kids_lines(v, c, i, c.items@[i].children@.len() as int)
    } else {
        Seq::empty()
    }
}

/// The lines of the first `k` children of the node at `i` and those below them.
pub open spec fn kids_lines(v: LineItemVisitor, c: Cache, i: int, k: int) -> Seq<Seq<char>>
    decreases c.items@.len() - i, 0int, k,
{
    if k <= 0 || !(0 <= i < c.items@.len()) || k > c.items@[i].children@.len() {
        Seq::empty()
    } else {
        let ch = c.items@[i].children@[k - 1] as int;
        kids_lines(v, c, i, k - 1) + if i < ch < c.items@.len() { tree_lines(v, c, ch) } else { Seq::empty() }
    }
}

impl LineItemVisitor {
    /// A visitor drawing with the given pieces.
    pub fn new(
        vline_last: &'static str,
        vline_not_last: &'static str,
        hline_last: &'static str,
        hline_not_last: &'static str,
    ) -> (r: LineItemVisitor)
        ensures
            r.vline_last == vline_last,
            r.vline_not_last == vline_not_last,
            r.hline_last == hline_last,
            r.hline_not_last == hline_not_last,
    {
        LineItemVisitor { vline_last, vline_not_last, hline_last, hline_not_last }
    }

    /// Adds the pieces for the ancestors of the node at `idx`, from the nearest up.
    pub fn make_vline(&self, cache: &Cache, keisen: &mut Vec<&'static str>, idx: usize)
        requires
            cache.wf(),
            idx < cache.items@.len(),
        ensures
            str_views(final(keisen)@) == str_views(old(keisen)@) + vlist(*self, *cache, idx as int),
        decreases idx,
    {
        let item = &cache.items[idx];
        match item.parent {
            Some(p) => {
                let pi = &cache.items[p];
                proof {
                    lemma_parent_has_children(*cache, idx as int);
                    lemma_parent_has_children(*cache, p as int);
                }
                let ghost start = str_views(keisen@);
                if pi.parent.is_some() {
                    let piece = if pi.is_last(cache) { self.vline_last } else { self.vline_not_last };
                    keisen.push(piece);
                    assert(str_views(keisen@) =~= start + seq![vline_of(*self, *cache, p as int)]);
                } else {
                    assert(str_views(keisen@) =~= start);
                }
                self.make_vline(cache, keisen, p);
                assert(str_views(keisen@) =~= start + vlist(*self, *cache, idx as int));
            },
            None => {
                assert(vlist(*self, *cache, idx as int) =~= Seq::<Seq<char>>::empty());
                assert(str_views(keisen@) =~= str_views(keisen@) + vlist(*self, *cache, idx as int));
            },
        }
    }
}

impl Visitor for LineItemVisitor {
    open spec fn ready(&self, c: Cache, i: int) -> bool {
        true
    }

    open spec fn lines(&self, c: Cache, i: int) -> Seq<Seq<char>> {
        tree_lines(*self, c, i)
    }

    fn visit(&mut self, cache: &Cache, idx: usize, out: &mut Vec<Vec<char>>)
        ensures
            *final(self) == *old(self),
        decreases cache.items@.len() - idx,
    {
        let item = &cache.items[idx];
        let mut line: Vec<char> = Vec::new();
        if item.parent.is_some() {
            proof {
                lemma_parent_has_children(*cache, idx as int);
            }
            let mut keisen: Vec<&'static str> = Vec::new();
            let branch = if item.is_last(cache) { self.hline_last } else { self.hline_not_last };
            keisen.push(branch);
            self.make_vline(cache, &mut keisen, idx);
            let ghost ks = str_views(keisen@);
            assert(ks =~= seq![hline_of(*self, *cache, idx as int)] + vlist(*self, *cache, idx as int));
            let mut j: usize = keisen.len();
            assert(ks.subrange(j as int, ks.len() as int) =~= Seq::<Seq<char>>::empty());
            while j > 0
                invariant
                    j <= keisen@.len(),
                    ks == str_views(keisen@),
                    line@ == rev_concat(ks.subrange(j as int, ks.len() as int)),
                decreases j,
            {
                j = j - 1;
                let piece: &str = keisen[j];
                crate::expression::push_str(&mut line, piece);
                proof {
                    let s = ks.subrange(j as int, ks.len() as int);
                    assert(s.drop_first() =~= ks.subrange(j + 1, ks.len() as int));
                    assert(s[0] == piece@);
                }
            }
            assert(ks.subrange(0, ks.len() as int) =~= ks);
        }
        crate::number::append_chars(&mut line, item.last_name.as_slice());
        assert(line@ == line_of(*self, *cache, idx as int));
        let ghost start = line_views(out@);
        out.push(line);
        assert(line_views(out@) =~= start + seq![line_of(*self, *cache, idx as int)]);
        let mut k: usize = 0;
        while k < item.children.len()
            invariant
                cache.wf(),
                idx < cache.items@.len(),
                item == &cache.items@[idx as int],
                k <= item.children@.len(),
                *self == *old(self),
                line_views(out@) == start + seq![line_of(*self, *cache, idx as int)] + kids_lines(*self, *cache, idx as int, k as int),
            decreases item.children.len() - k,
        {
            let ch = item.children[k];
            proof {
                assert(cache.items@[idx as int].children@[k as int] == ch);
            }
            assert(idx < ch < cache.items@.len());
            self.visit(cache, ch, out);
            proof {
                assert(line_views(out@) =~= start + seq![line_of(*self, *cache, idx as int)]
                    + kids_lines(*self, *cache, idx as int, k + 1));
            }
            k = k + 1;
        }
    }
}

} // verus!
