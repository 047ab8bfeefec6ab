use what_tree::{What, WhatIter, WhatRecursiveIter};

fn shallow_names(it: &mut WhatIter) -> Vec<String> {
    let mut out = Vec::new();
    while let Some(x) = it.next() {
        out.push(x.name().to_string());
    }
    out
}

fn deep_names(it: &mut WhatRecursiveIter) -> Vec<String> {
    let mut out = Vec::new();
    while let Some(x) = it.next() {
        out.push(x.name().to_string());
    }
    out
}

fn sample() -> What<'static> {
    let mut root = What::new("root");
    let mut a0 = What::new("a0");
    let mut a1 = What::new("a1");
    let a0b0 = What::new("a0b0");
    let a0b1 = What::new("a0b1");
    let a1b0 = What::new("a1b0");
    let mut a1b1 = What::new("a1b1");
    let mut a1b1c0 = What::new("a1b1c0");
    let a1b1c0d0 = What::new("a1b1c0d0");

    a1b1c0.add(a1b1c0d0);
    a1b1.add(a1b1c0);
    a1.add(a1b0);
    a1.add(a1b1);

    a0.add(a0b0);
    a0.add(a0b1);

    root.add(a0);
    root.add(a1);
    root
}

#[test]
fn simple() {
    let mut root = What::new("root");
    let mut a0 = What::new("a0");
    let mut a1 = What::new("a1");
    let a0b0 = What::new("a0b0");
    let a0b1 = What::new("a0b1");
    let a1b0 = What::new("a1b0");
    let mut a1b1 = What::new("a1b1");
    let mut a1b1c0 = What::new("a1b1c0");
    let a1b1c0d0 = What::new("a1b1c0d0");

    // reverse tree buildup
    a1b1c0.add(a1b1c0d0);
    a1b1.add(a1b1c0);
    a1.add(a1b0);
    a1.add(a1b1);

    a0.add(a0b0);
    a0.add(a0b1);

    root.add(a0);
    root.add(a1);

    let mut plain = root.iter();
    while let Some(x) = plain.next() {
        println!("Iter(plain): {}", x.name());
    }
    let mut recursive = root.recursive_iter();
    while let Some(x) = recursive.next() {
        println!("Iter(recursive): {}", x.name());
    }

    assert_eq!(shallow_names(&mut root.iter()), vec!["a0", "a1"]);
    assert_eq!(
        deep_names(&mut root.recursive_iter()),
        vec!["a0b0", "a0b1", "a0", "a1b0", "a1b1c0d0", "a1b1c0", "a1b1", "a1", "root"]
    );
}

#[test]
fn shallow_walk_of_root() {
    let root = sample();
    assert_eq!(shallow_names(&mut root.iter()), vec!["a0", "a1"]);
    assert_eq!(shallow_names(&mut WhatIter::new(&root)), vec!["a0", "a1"]);
}

#[test]
fn depth_first_walk_of_root() {
    let root = sample();
    assert_eq!(
        deep_names(&mut WhatRecursiveIter::new(&root)),
        vec!["a0b0", "a0b1", "a0", "a1b0", "a1b1c0d0", "a1b1c0", "a1b1", "a1", "root"]
    );
}

#[test]
fn single_leaf_walks_to_itself() {
    let root = What::new("root");
    assert_eq!(deep_names(&mut root.recursive_iter()), vec!["root"]);
    assert_eq!(shallow_names(&mut root.iter()), Vec::<String>::new());
}

#[test]
fn walk_counts_every_node_once() {
    let root = sample();
    let names = deep_names(&mut root.recursive_iter());
    assert_eq!(names.len(), 9);
    let mut sorted = names.clone();
    sorted.sort();
    sorted.dedup();
    assert_eq!(sorted.len(), 9);
}

#[test]
fn subtree_walk_is_contiguous_and_before_its_root() {
    let root = sample();
    let names = deep_names(&mut root.recursive_iter());
    let pos = |s: &str| names.iter().position(|n| n == s).unwrap();
    // every node below a1 comes before a1, and they form one run ending at a1
    let a1 = pos("a1");
    for n in ["a1b0", "a1b1", "a1b1c0", "a1b1c0d0"] {
        assert!(pos(n) < a1);
        assert!(pos(n) > pos("a0"));
    }
    assert!(pos("a0b0") < pos("a0") && pos("a0b1") < pos("a0"));
    assert_eq!(pos("root"), 8);
}

#[test]
fn two_walks_of_one_tree_agree() {
    let root = sample();
    let first = deep_names(&mut root.recursive_iter());
    let second = deep_names(&mut root.recursive_iter());
    assert_eq!(first, second);
}

#[test]
fn exhausted_walk_stays_exhausted() {
    let root = sample();
    let mut it = root.recursive_iter();
    let _ = deep_names(&mut it);
    for _ in 0..5 {
        assert!(it.next().is_none());
    }
    let leaf = What::new("x");
    let mut shallow = leaf.iter();
    assert!(shallow.next().is_none());
    assert!(shallow.next().is_none());
}

#[test]
fn node_accessors() {
    let mut a = What::new("parent");
    assert!(!a.has_children());
    assert_eq!(a.name(), "parent");
    a.add(What::new("child"));
    assert!(a.has_children());
    assert_eq!(a.name(), "parent");
    assert_eq!(shallow_names(&mut a.iter()), vec!["child"]);
}

#[test]
fn equal_labels_are_all_walked() {
    let mut root = What::new("same");
    root.add(What::new("same"));
    root.add(What::new("same"));
    assert_eq!(deep_names(&mut root.recursive_iter()), vec!["same", "same", "same"]);
}

#[test]
fn deep_chain_walks_without_recursion() {
    let mut node = What::new("leaf");
    for _ in 0..1000 {
        let mut parent = What::new("inner");
        parent.add(node);
        node = parent;
    }
    let names = deep_names(&mut node.recursive_iter());
    assert_eq!(names.len(), 1001);
    assert_eq!(names[0], "leaf");
}
