use listkit::{
    at, compress, decode, dropn, duplicate, encode, flatten, is_palindrome, last, last_two,
    length, mod_encode, pack, replicate, rev, Node, Rle,
};

#[test]
fn test_01_last() {
    assert_eq!(last(&["a", "b", "c", "d"]), Some("d"));
    assert_eq!(last::<&str>(&[]), None)
}

#[test]
fn test_02_last_two() {
    assert_eq!(last_two(&["a", "b", "c", "d"]), Some(("c", "d")));
    assert_eq!(last_two(&["a"]), None)
}

#[test]
fn test_03_at() {
    assert_eq!(at(&["a", "b", "c", "d", "e"], 3), Some("c"));
    assert_eq!(at(&["a"], 3), None)
}

#[test]
fn test_04_length() {
    assert_eq!(length(&["a", "b", "c"]), 3);
    assert_eq!(length::<&str>(&[]), 0);
}

#[test]
fn test_05_rev() {
    assert_eq!(rev(&["a", "b", "c"]), ["c", "b", "a"]);
}

#[test]
fn test_06_is_palindrome() {
    assert!(is_palindrome(&["x", "a", "m", "a", "x"]));
    assert!(!is_palindrome(&["a", "b"]))
}

#[test]
fn test_07_flatten() {
    assert_eq!(
        flatten(&[
            Node::One("a"),
            Node::Many(vec![
                Node::One("b"),
                Node::Many(vec![Node::One("c"), Node::One("d")])
            ]),
            Node::One("e")
        ]),
        ["a", "b", "c", "d", "e"]
    );
}

#[test]
fn test_08_compress() {
    assert_eq!(
        compress(&["a", "a", "a", "a", "b", "c", "c", "a", "a", "d", "e", "e", "e", "e",]),
        ["a", "b", "c", "a", "d", "e"]
    );
}

#[test]
fn test_09_pack() {
    assert_eq!(
        pack(&["a", "a", "a", "a", "b", "c", "c", "a", "a", "d", "d", "e", "e", "e", "e"]),
        [
            vec!["a", "a", "a", "a"],
            vec!["b"],
            vec!["c", "c"],
            vec!["a", "a"],
            vec!["d", "d"],
            vec!["e", "e", "e", "e"]
        ]
    );
}

#[test]
fn test_10_encode() {
    assert_eq!(
        encode(&["a", "a", "a", "a", "b", "c", "c", "a", "a", "d", "e", "e", "e", "e"]),
        [(4, "a"), (1, "b"), (2, "c"), (2, "a"), (1, "d"), (4, "e")]
    )
}

#[test]
fn test_11_mod_encode() {
    assert_eq!(
        mod_encode(&["a", "a", "a", "a", "b", "c", "c", "a", "a", "d", "e", "e", "e", "e"]),
        [
            Rle::Many(4, "a"),
            Rle::One("b"),
            Rle::Many(2, "c"),
            Rle::Many(2, "a"),
            Rle::One("d"),
            Rle::Many(4, "e")
        ]
    )
}

#[test]
fn test_12_decode() {
    assert_eq!(
        decode(&[
            Rle::Many(4, "a"),
            Rle::One("b"),
            Rle::Many(2, "c"),
            Rle::Many(2, "a"),
            Rle::One("d"),
            Rle::Many(4, "e")
        ]),
        ["a", "a", "a", "a", "b", "c", "c", "a", "a", "d", "e", "e", "e", "e"]
    )
}

#[test]
fn test_14_duplicate() {
    assert_eq!(
        duplicate(&["a", "b", "c", "c", "d"]),
        ["a", "a", "b", "b", "c", "c", "c", "c", "d", "d"]
    )
}

#[test]
fn test_15_replicate() {
    assert_eq!(
        replicate(&["a", "b", "c"], 3),
        ["a", "a", "a", "b", "b", "b", "c", "c", "c"]
    )
}

#[test]
fn test_16_dropn() {
    assert_eq!(
        dropn(&["a", "b", "c", "d", "e", "f", "g", "h", "i", "j"], 3),
        ["a", "b", "d", "e", "g", "h", "j"]
    )
}
