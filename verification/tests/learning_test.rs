use elisp::qsort::qsort;
use elisp::tree::{create_tree, Cache, Item, ItemVisitor, LineItemVisitor, Visitor};

fn chars(s: &str) -> Vec<char> {
    s.chars().collect()
}

fn text(v: &Vec<Vec<char>>) -> Vec<String> {
    v.iter().map(|l| l.iter().collect::<String>()).collect()
}

fn sample() -> Cache {
    let lines = vec![chars("a.b.c"), chars("a.b.d"), chars("a.e")];
    create_tree(&lines, '.')
}

#[test]
fn qsort_whole_vector() {
    let mut v = vec![5, 3, 9, 1, 7, 2, 8, 3];
    qsort(&mut v, 0, 7);
    assert_eq!(v, vec![1, 2, 3, 3, 5, 7, 8, 9]);
}

#[test]
fn qsort_negative_and_equal() {
    let mut v = vec![0, -4, 12, -4, 7, 7, -100, 3];
    qsort(&mut v, 0, 7);
    assert_eq!(v, vec![-100, -4, -4, 0, 3, 7, 7, 12]);
}

#[test]
fn qsort_front_part_only() {
    let mut v = vec![4, 3, 2, 1, 0];
    qsort(&mut v, 0, 2);
    assert_eq!(v, vec![2, 3, 4, 1, 0]);
}

#[test]
fn qsort_inner_part() {
    let mut v = vec![1, 9, 5, 7, 6, 20];
    qsort(&mut v, 1, 4);
    assert_eq!(v, vec![1, 5, 6, 7, 9, 20]);
}

#[test]
fn tree_nodes_and_links() {
    let c = sample();
    assert_eq!(c.items.len(), 5);
    let a = c.get(&chars("a")).unwrap();
    let b = c.get(&chars("a.b")).unwrap();
    let e = c.get(&chars("a.e")).unwrap();
    let d = c.get(&chars("a.b.d")).unwrap();
    assert_eq!(c.top, Some(a));
    assert_eq!(c.items[a].children, vec![b, e]);
    assert_eq!(c.items[b].parent, Some(a));
    assert_eq!(c.items[d].last_name, chars("d"));
    assert!(c.get(&chars("b")).is_none());
    assert!(c.items[e].is_last(&c));
    assert!(!c.items[b].is_last(&c));
    assert!(c.items[a].is_last(&c));
}

#[test]
fn tree_indented_listing() {
    let c = sample();
    let mut out = Vec::new();
    Item::accept(&c, c.top.unwrap(), &mut ItemVisitor::new(), &mut out);
    assert_eq!(text(&out), vec!["a", "    b", "        c", "        d", "    e"]);
}

#[test]
fn tree_line_listing() {
    let c = sample();
    let mut out = Vec::new();
    let mut v = LineItemVisitor::new("   ", "|  ", "`--", "|--");
    v.visit(&c, c.top.unwrap(), &mut out);
    assert_eq!(text(&out), vec!["a", "|--b", "|  |--c", "|  `--d", "`--e"]);
}

#[test]
fn tree_line_listing_deep_last_branch() {
    let lines = vec![chars("r.x.y"), chars("r.z"), chars("r.x.w.v")];
    let c = create_tree(&lines, '.');
    let mut out = Vec::new();
    Item::accept(&c, c.top.unwrap(), &mut LineItemVisitor::new("   ", "|  ", "`--", "|--"), &mut out);
    assert_eq!(text(&out), vec!["r", "|--x", "|  |--y", "|  `--w", "|     `--v", "`--z"]);
}

#[test]
fn tree_repeated_line_adds_nothing() {
    let lines = vec![chars("p.q"), chars("p.q"), chars("p")];
    let c = create_tree(&lines, '.');
    assert_eq!(c.items.len(), 2);
}

#[test]
fn tree_last_root_is_top() {
    let lines = vec![chars("p.q"), chars("s")];
    let c = create_tree(&lines, '.');
    assert_eq!(c.top, c.get(&chars("s")));
}

#[test]
fn qsort_scan_passes_below_the_segment() {
    let mut v = vec![0, 5, 1, 2];
    qsort(&mut v, 2, 3);
    assert_eq!(v, vec![0, 5, 1, 2]);
    let mut w = vec![0, 9, 4, 3];
    qsort(&mut w, 2, 3);
    assert_eq!(w, vec![0, 9, 3, 4]);
}

#[test]
fn qsort_segment_after_a_greater_item() {
    let mut v = vec![9, 2, 1];
    qsort(&mut v, 1, 2);
    assert_eq!(v, vec![9, 1, 2]);
    let mut w = vec![9, 8, 3, 1, 2];
    qsort(&mut w, 2, 4);
    assert_eq!(w, vec![9, 8, 1, 2, 3]);
}
