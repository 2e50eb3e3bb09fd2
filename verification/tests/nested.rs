use listkit::{flatten, Node};

#[test]
fn flatten_of_nothing_is_nothing() {
    assert_eq!(flatten::<u8>(&[]), []);
}

#[test]
fn flatten_skips_empty_lists() {
    assert_eq!(flatten::<u8>(&[Node::Many(vec![])]), []);
    assert_eq!(
        flatten(&[
            Node::One(1u8),
            Node::Many(vec![]),
            Node::Many(vec![Node::Many(vec![]), Node::One(2)]),
            Node::Many(vec![Node::Many(vec![Node::Many(vec![])])]),
            Node::One(3),
        ]),
        [1, 2, 3]
    );
}

#[test]
fn flatten_leaves_a_plain_list_as_it_is() {
    let plain: Vec<u32> = vec![4, 8, 15, 16, 23, 42];
    let nodes: Vec<Node<u32>> = plain.iter().map(|&x| Node::One(x)).collect();
    assert_eq!(flatten(&nodes), plain);
}

#[test]
fn flatten_goes_depth_first_from_the_left() {
    let tree: Vec<Node<char>> = vec![
        Node::Many(vec![
            Node::Many(vec![Node::One('a'), Node::One('b')]),
            Node::One('c'),
        ]),
        Node::One('d'),
        Node::Many(vec![
            Node::One('e'),
            Node::Many(vec![Node::Many(vec![Node::One('f')]), Node::One('g')]),
        ]),
    ];
    assert_eq!(flatten(&tree), ['a', 'b', 'c', 'd', 'e', 'f', 'g']);
}

#[test]
fn flatten_yields_one_element_for_each_leaf() {
    let mut tree: Vec<Node<usize>> = vec![Node::One(0)];
    for depth in 1..20usize {
        tree = vec![Node::One(depth), Node::Many(tree), Node::One(depth)];
    }
    assert_eq!(flatten(&tree).len(), 39);
}
