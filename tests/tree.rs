use blocknode::tree::Tree;

#[test]
fn basic_inserts() {
    // empty tree
    assert_eq!(Tree::<i64>::new(), Tree::Empty::<i64>);

    // integers
    let mut t1 = Tree::<i64>::new();
    t1.insert(9);
    assert_eq!(
        t1,
        Tree::Leaf { val: 9, l: Box::new(Tree::Empty), r: Box::new(Tree::Empty) }
    );

    t1.insert(4);
    assert_eq!(
        t1,
        Tree::Leaf {
            val: 9,
            l: Box::new(Tree::Leaf { val: 4, l: Box::new(Tree::Empty), r: Box::new(Tree::Empty) }),
            r: Box::new(Tree::Empty)
        }
    );

    t1.insert(5);
    assert_eq!(
        t1,
        Tree::Leaf {
            val: 9,
            l: Box::new(Tree::Leaf {
                val: 4,
                l: Box::new(Tree::Empty),
                r: Box::new(Tree::Leaf { val: 5, l: Box::new(Tree::Empty), r: Box::new(Tree::Empty) })
            }),
            r: Box::new(Tree::Empty)
        }
    );
}

#[test]
fn empty() {
    assert_eq!(Tree::<i64>::new().is_empty(), true);
    assert_eq!(Tree::Empty::<i64>.is_empty(), true);

    let mut t1 = Tree::<i64>::new();
    t1.insert(5);
    assert_eq!(t1.is_empty(), false);
}

#[test]
fn find() {
    let mut t1 = Tree::<i64>::new();
    t1.insert(7);
    t1.insert(5);
    t1.insert(9);
    t1.insert(6);

    let t2 = Tree::Leaf {
        val: 5,
        l: Box::new(Tree::Empty),
        r: Box::new(Tree::Leaf { val: 6, l: Box::new(Tree::Empty), r: Box::new(Tree::Empty) }),
    };

    assert_eq!(
        match t1.find(5) {
            Some(node) => node,
            _ => &Tree::Empty,
        },
        &t2
    );

    assert_eq!(
        match t1.find(3) {
            Some(node) => node,
            _ => &Tree::Empty,
        },
        &Tree::Empty
    );
}

#[test]
fn insert_existing_value_keeps_tree() {
    let mut t1 = Tree::<i64>::new();
    t1.insert(3);
    t1.insert(1);
    t1.insert(3);
    assert_eq!(
        t1,
        Tree::Leaf {
            val: 3,
            l: Box::new(Tree::Leaf { val: 1, l: Box::new(Tree::Empty), r: Box::new(Tree::Empty) }),
            r: Box::new(Tree::Empty)
        }
    );
}

#[test]
fn find_root_and_extremes() {
    let mut t1 = Tree::<i64>::new();
    assert!(t1.find(0).is_none());
    t1.insert(i64::MIN);
    t1.insert(i64::MAX);
    t1.insert(0);
    assert_eq!(
        t1.find(i64::MIN),
        Some(&Tree::Leaf {
            val: i64::MIN,
            l: Box::new(Tree::Empty),
            r: Box::new(Tree::Leaf {
                val: i64::MAX,
                l: Box::new(Tree::Leaf { val: 0, l: Box::new(Tree::Empty), r: Box::new(Tree::Empty) }),
                r: Box::new(Tree::Empty)
            })
        })
    );
    assert_eq!(
        t1.find(0),
        Some(&Tree::Leaf { val: 0, l: Box::new(Tree::Empty), r: Box::new(Tree::Empty) })
    );
    assert!(t1.find(1).is_none());
}
