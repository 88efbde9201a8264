use largest::finder::{
    largest_char_copy, largest_char_ref, largest_generic, largest_generic_copy, largest_i32,
    largest_index,
};

fn sorted_last(v: &[i32]) -> i32 {
    let mut s = v.to_vec();
    s.sort();
    s[s.len() - 1]
}

#[test]
fn numbers_scenario() {
    let number_list = vec![34, 50, 25, 100, 65];
    assert_eq!(largest_i32(&number_list), 100);
    assert_eq!(*largest_generic(&number_list), 100);
    assert_eq!(largest_generic_copy(&number_list), 100);
    assert_eq!(largest_index(&number_list), Some(3));
}

#[test]
fn chars_scenario() {
    let char_list = vec!['y', 'm', 'a', 'q'];
    assert_eq!(largest_char_copy(&char_list), 'y');
    assert_eq!(*largest_char_ref(&char_list), 'y');
    assert_eq!(*largest_generic(&char_list), 'y');
    assert_eq!(largest_generic_copy(&char_list), 'y');
    assert_eq!(largest_index(&char_list), Some(0));
}

#[test]
fn agrees_with_last_of_sorted() {
    let cases: Vec<Vec<i32>> = vec![
        vec![5],
        vec![1, 2, 3],
        vec![3, 2, 1],
        vec![-7, -3, -9],
        vec![0, i32::MIN, i32::MAX, 4],
        vec![8, 8, 2, 8],
    ];
    for v in cases.iter() {
        let expected = sorted_last(v);
        assert_eq!(largest_i32(v), expected);
        assert_eq!(*largest_generic(v), expected);
        assert_eq!(largest_generic_copy(v), expected);
    }
}

#[test]
fn first_of_equal_largest_is_taken() {
    let v = vec![3, 7, 1, 7, 7];
    assert_eq!(largest_index(&v), Some(1));
    assert!(std::ptr::eq(largest_generic(&v), &v[1]));
    let c = vec!['b', 'z', 'a', 'z'];
    assert_eq!(largest_index(&c), Some(1));
    assert!(std::ptr::eq(largest_generic(&c), &c[1]));
    assert!(std::ptr::eq(largest_char_ref(&c), &c[1]));
}

#[test]
fn single_element() {
    assert_eq!(largest_i32(&[42]), 42);
    assert_eq!(largest_i32(&[i32::MIN]), i32::MIN);
    assert_eq!(largest_char_copy(&['q']), 'q');
    assert_eq!(*largest_char_ref(&['q']), 'q');
    assert_eq!(*largest_generic(&["only"]), "only");
    assert_eq!(largest_generic_copy(&[-1i64]), -1);
    assert_eq!(largest_index(&[9u8]), Some(0));
}

#[test]
fn value_does_not_depend_on_order() {
    let a = vec![34, 50, 25, 100, 65];
    let b = vec![100, 65, 34, 25, 50];
    let c = vec![25, 34, 50, 65, 100];
    assert_eq!(largest_i32(&a), largest_i32(&b));
    assert_eq!(largest_i32(&b), largest_i32(&c));
    assert_eq!(largest_generic_copy(&a), largest_generic_copy(&c));
    assert_eq!(largest_index(&a), Some(3));
    assert_eq!(largest_index(&b), Some(0));
    assert_eq!(largest_index(&c), Some(4));
    let x = vec!['y', 'm', 'a', 'q'];
    let y = vec!['q', 'a', 'm', 'y'];
    assert_eq!(largest_char_copy(&x), largest_char_copy(&y));
}

#[test]
fn empty_input_has_no_largest() {
    let empty: Vec<i32> = Vec::new();
    assert_eq!(largest_index(&empty), None);
    let no_chars: [char; 0] = [];
    assert_eq!(largest_index(&no_chars), None);
}

#[test]
fn unicode_chars_compare_by_scalar_value() {
    assert_eq!(largest_char_copy(&['a', 'é', 'Z']), 'é');
    assert_eq!(*largest_char_ref(&['\u{1F600}', 'z', '\u{0}']), '\u{1F600}');
}

#[test]
fn largest_at_the_end() {
    assert_eq!(largest_i32(&[-5, -4, -3, -2]), -2);
    assert_eq!(largest_index(&[1, 2, 3, 4]), Some(3));
}
