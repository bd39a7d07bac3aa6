use assay::product::cartesian_product;

#[test]
fn two_lists_in_odometer_order() {
    let lists = vec![vec![1, 2], vec![10, 20]];
    assert_eq!(
        cartesian_product(&lists),
        vec![vec![1, 10], vec![1, 20], vec![2, 10], vec![2, 20]]
    );
}

#[test]
fn no_lists_give_one_empty_combination() {
    let lists: Vec<Vec<u8>> = vec![];
    assert_eq!(cartesian_product(&lists), vec![Vec::<u8>::new()]);
}

#[test]
fn an_empty_list_gives_nothing() {
    let lists = vec![vec![1, 2], vec![]];
    assert!(cartesian_product(&lists).is_empty());
}

#[test]
fn count_is_the_product_of_lengths() {
    let lists = vec![vec!['a', 'b'], vec!['x', 'y', 'z'], vec!['!']];
    let r = cartesian_product(&lists);
    assert_eq!(r.len(), 6);
    assert!(r.iter().all(|c| c.len() == 3));
    assert_eq!(r[0], vec!['a', 'x', '!']);
    assert_eq!(r[1], vec!['a', 'y', '!']);
    assert_eq!(r[2], vec!['a', 'z', '!']);
    assert_eq!(r[3], vec!['b', 'x', '!']);
    assert_eq!(r[5], vec!['b', 'z', '!']);
}

#[test]
fn duplicate_values_give_duplicate_combinations() {
    let lists = vec![vec![7, 7], vec![1]];
    assert_eq!(cartesian_product(&lists), vec![vec![7, 1], vec![7, 1]]);
}
