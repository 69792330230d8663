use passgen::err::ErrorKind;
use passgen::symbol::Symbols;

fn strings(items: &[&str]) -> Vec<String> {
    items.iter().map(|s| s.to_string()).collect()
}

#[test]
fn from_vec_drops_duplicates_and_empty_entries() {
    let set = Symbols::from_vec(strings(&["a", "a", "b", ""]));
    assert_eq!(set.as_list(), &strings(&["a", "b"]));
    assert_eq!(set.len(), 2);
    assert!(!set.is_empty());
}

#[test]
fn from_vec_keeps_symbols_in_ascending_order() {
    let set = Symbols::from_vec(strings(&["pear", "apple", "fig", "apple", "zebra", "figs"]));
    assert_eq!(set.as_list(), &strings(&["apple", "fig", "figs", "pear", "zebra"]));
}

#[test]
fn from_vec_orders_by_utf8_bytes() {
    let set = Symbols::from_vec(strings(&["é", "z", "Z", "a", "€", "ab"]));
    let mut expected = strings(&["é", "z", "Z", "a", "€", "ab"]);
    expected.sort();
    assert_eq!(set.as_list(), &expected);
    assert_eq!(set.as_list(), &strings(&["Z", "a", "ab", "z", "é", "€"]));
}

#[test]
fn from_vec_of_nothing_is_empty() {
    let set = Symbols::from_vec(Vec::new());
    assert!(set.is_empty());
    assert_eq!(set.len(), 0);
    assert_eq!(set.max_symbol_len(), 0);
    let only_empty = Symbols::from_vec(strings(&["", ""]));
    assert!(only_empty.is_empty());
}

#[test]
fn from_iter_agrees_with_from_vec() {
    let items = strings(&["b", "", "a", "c", "b"]);
    let by_iter = Symbols::from_iter(items.clone().into_iter());
    let by_vec = Symbols::from_vec(items);
    assert_eq!(by_iter.as_list(), by_vec.as_list());
    assert_eq!(by_iter.as_list(), &strings(&["a", "b", "c"]));
}

#[test]
fn from_chars_makes_one_symbol_of_each_character() {
    let set = Symbols::from_chars("hello".chars());
    assert_eq!(set.as_list(), &strings(&["e", "h", "l", "o"]));
    let two = Symbols::from_chars("ab".chars());
    assert_eq!(two.as_list(), &strings(&["a", "b"]));
    let none = Symbols::from_chars("".chars());
    assert!(none.is_empty());
}

#[test]
fn from_chars_keeps_characters_beyond_ascii_whole() {
    let set = Symbols::from_chars("aé€a".chars());
    assert_eq!(set.as_list(), &strings(&["a", "é", "€"]));
    assert_eq!(set.max_symbol_len(), 3);
}

#[test]
fn from_bufread_reads_one_symbol_per_line() {
    let set = Symbols::from_bufread(b"cat\ndog\r\ncat\n\nemu").unwrap();
    assert_eq!(set.as_list(), &strings(&["cat", "dog", "emu"]));
}

#[test]
fn from_bufread_of_nothing_is_empty() {
    let set = Symbols::from_bufread(b"").unwrap();
    assert!(set.is_empty());
    let blank = Symbols::from_bufread(b"\n\r\n\n").unwrap();
    assert!(blank.is_empty());
}

#[test]
fn from_bufread_decodes_utf8() {
    let set = Symbols::from_bufread("né\nçà\n".as_bytes()).unwrap();
    assert_eq!(set.as_list(), &strings(&["né", "çà"]));
}

#[test]
fn from_bufread_refuses_bytes_that_are_not_utf8() {
    let err = Symbols::from_bufread(b"cat\n\xff\xfe\ndog\n").unwrap_err();
    assert_eq!(err.kind(), ErrorKind::Io);
    assert_eq!(err.message(), "stream did not contain valid UTF-8");
    let cut = Symbols::from_bufread(b"cat\ndo\xc3").unwrap_err();
    assert_eq!(cut.kind(), ErrorKind::Io);
}

#[test]
fn max_symbol_len_counts_bytes() {
    let set = Symbols::from_vec(strings(&["a", "abc", "ab"]));
    assert_eq!(set.max_symbol_len(), 3);
    let wide = Symbols::from_vec(strings(&["aaa", "€€"]));
    assert_eq!(wide.max_symbol_len(), 6);
}

#[test]
fn no_symbol_is_empty_and_none_occurs_twice() {
    let set = Symbols::from_vec(strings(&["x", "", "y", "x", "z", "y", "", "x"]));
    let list = set.as_list();
    for (i, s) in list.iter().enumerate() {
        assert!(!s.is_empty());
        for t in &list[i + 1..] {
            assert!(s < t);
        }
    }
    assert_eq!(list.len(), 3);
}
