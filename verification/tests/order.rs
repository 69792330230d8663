use passgen::order::{rank_bytes, rank_symbols, Rank};

#[test]
fn rank_bytes_orders_byte_by_byte() {
    assert_eq!(rank_bytes(&[1, 2], &[1, 3]), Rank::Before);
    assert_eq!(rank_bytes(&[1, 3], &[1, 2]), Rank::After);
    assert_eq!(rank_bytes(&[1, 2], &[1, 2]), Rank::Same);
    assert_eq!(rank_bytes(&[2], &[1, 9, 9]), Rank::After);
}

#[test]
fn rank_bytes_puts_a_prefix_first() {
    assert_eq!(rank_bytes(&[], &[0]), Rank::Before);
    assert_eq!(rank_bytes(&[1, 2], &[1, 2, 0]), Rank::Before);
    assert_eq!(rank_bytes(&[1, 2, 0], &[1, 2]), Rank::After);
    assert_eq!(rank_bytes(&[], &[]), Rank::Same);
}

#[test]
fn rank_symbols_agrees_with_the_order_of_strings() {
    let words = ["", "a", "ab", "b", "B", "é", "z", "€", "zz", "a\u{0}"];
    for a in words {
        for b in words {
            let expected = if a < b {
                Rank::Before
            } else if a == b {
                Rank::Same
            } else {
                Rank::After
            };
            assert_eq!(rank_symbols(a, b), expected);
        }
    }
}
