use terra::node::{VNode, MAX_LEVEL};

#[test]
fn roots_are_the_six_faces() {
    let roots = VNode::roots();
    assert_eq!(roots.len(), 6);
    for (i, r) in roots.iter().enumerate() {
        assert_eq!(r.level(), 0);
        assert_eq!(r.x(), 0);
        assert_eq!(r.y(), 0);
        assert_eq!(r.face() as usize, i);
    }
    for i in 0..6 {
        for j in 0..6 {
            assert_eq!(roots[i] == roots[j], i == j);
        }
    }
}

#[test]
fn fields_round_trip() {
    let n = VNode::new(3, 2, 5, 6);
    assert_eq!((n.level(), n.face(), n.x(), n.y()), (3, 2, 5, 6));
    let deep = VNode::new(MAX_LEVEL, 5, (1 << 22) - 1, 12345);
    assert_eq!((deep.level(), deep.face(), deep.x(), deep.y()), (22, 5, (1 << 22) - 1, 12345));
}

#[test]
fn parent_and_child_index() {
    let n = VNode::new(3, 2, 5, 6);
    let (p, i) = n.parent().unwrap();
    assert_eq!((p.level(), p.face(), p.x(), p.y()), (2, 2, 2, 3));
    assert_eq!(i, 1);
    assert_eq!(p.children()[i as usize], n);
    assert!(VNode::roots()[4].parent().is_none());
}

#[test]
fn children_of_every_child_lead_back() {
    let n = VNode::new(4, 3, 9, 14);
    let children = n.children();
    let expected = [(18, 28), (19, 28), (18, 29), (19, 29)];
    for (i, c) in children.iter().enumerate() {
        assert_eq!((c.level(), c.face(), c.x(), c.y()), (5, 3, expected[i].0, expected[i].1));
        let (p, index) = c.parent().unwrap();
        assert_eq!(p, n);
        assert_eq!(index as usize, i);
        assert_eq!(p.children()[index as usize], *c);
    }
}

#[test]
fn ancestor_offset() {
    let n = VNode::new(3, 2, 5, 6);
    let (a, generations, offset) = n.find_ancestor(|a: VNode| a.level() == 1).unwrap();
    assert_eq!((a.level(), a.face(), a.x(), a.y()), (1, 2, 1, 1));
    assert_eq!(generations, 2);
    assert_eq!(offset, (1, 2));
}

#[test]
fn ancestor_is_self_when_accepted() {
    let n = VNode::new(7, 1, 100, 3);
    let (a, generations, offset) = n.find_ancestor(|_: VNode| true).unwrap();
    assert_eq!(a, n);
    assert_eq!(generations, 0);
    assert_eq!(offset, (0, 0));
}

#[test]
fn ancestor_missing() {
    let n = VNode::new(5, 0, 17, 30);
    assert!(n.find_ancestor(|a: VNode| a.face() == 4).is_none());
}

#[test]
fn breadth_first_visits_roots_then_children() {
    let visited = VNode::breadth_first(|n: VNode| n.level() < 1);
    assert_eq!(visited.len(), 6 + 24);
    for i in 0..6 {
        assert_eq!(visited[i], VNode::roots()[i]);
    }
    for (k, c) in visited[6..].iter().enumerate() {
        let face = k / 4;
        assert_eq!(*c, VNode::roots()[face].children()[k % 4]);
    }
}

#[test]
fn breadth_first_expands_only_accepted() {
    let visited = VNode::breadth_first(|n: VNode| n.face() == 2 && n.level() < 2);
    assert_eq!(visited.len(), 6 + 4 + 16);
    for w in visited.windows(2) {
        assert!(w[0].level() <= w[1].level());
    }
    assert!(visited[6..].iter().all(|n| n.face() == 2));
}

#[test]
fn key_round_trip() {
    let n = VNode::new(9, 4, 300, 511);
    assert_eq!(VNode::from_key(n.key_value()), Some(n));
    assert_eq!(VNode::from_key(u64::MAX), None);
    let bad_face = (1u64 << 56) | (7u64 << 53);
    assert_eq!(VNode::from_key(bad_face), None);
}

#[test]
fn breadth_first_visits_each_node_once_in_order() {
    let visited = VNode::breadth_first(|n: VNode| n.level() < 2 && n.x() == 0 && n.y() == 0);
    assert_eq!(visited.len(), 6 + 24 + 24);
    for i in 0..visited.len() {
        for j in (i + 1)..visited.len() {
            assert_ne!(visited[i], visited[j]);
        }
    }
    let level2: Vec<VNode> = visited.iter().copied().filter(|n| n.level() == 2).collect();
    for (k, n) in level2.iter().enumerate() {
        let (p, i) = n.parent().unwrap();
        assert_eq!(i as usize, k % 4);
        assert_eq!(p, VNode::roots()[k / 4].children()[0]);
    }
}
