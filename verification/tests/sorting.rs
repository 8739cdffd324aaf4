use soar_cli::sorting::{compare_text, stable_order, Order, SortKey};

fn cs(s: &str) -> Vec<char> {
    s.chars().collect()
}

fn key(major: &str, minor: &str) -> SortKey {
    SortKey { major: cs(major), minor: cs(minor) }
}

#[test]
fn texts_compare_by_character() {
    assert_eq!(compare_text(&cs("abc"), &cs("abd")), Order::Less);
    assert_eq!(compare_text(&cs("abd"), &cs("abc")), Order::Greater);
    assert_eq!(compare_text(&cs("abc"), &cs("abc")), Order::Equal);
    assert_eq!(compare_text(&cs("ab"), &cs("abc")), Order::Less);
    assert_eq!(compare_text(&cs("abc"), &cs("ab")), Order::Greater);
    assert_eq!(compare_text(&cs(""), &cs("")), Order::Equal);
    assert_eq!(compare_text(&cs(""), &cs("a")), Order::Less);
    assert_eq!(compare_text(&cs("Z"), &cs("a")), Order::Less);
    assert_eq!(compare_text(&cs("z"), &cs("é")), Order::Less);
}

#[test]
fn texts_compare_like_strings() {
    let words = ["", "a", "A", "ab", "b", "é", "zz", "z", "€", "😀", "a-b", "a/b"];
    for x in words {
        for y in words {
            let expected = match x.cmp(y) {
                std::cmp::Ordering::Less => Order::Less,
                std::cmp::Ordering::Equal => Order::Equal,
                std::cmp::Ordering::Greater => Order::Greater,
            };
            assert_eq!(compare_text(&cs(x), &cs(y)), expected, "{x} {y}");
        }
    }
}

#[test]
fn stable_order_sorts_by_both_parts() {
    let keys = vec![key("pkg", "a"), key("bin", "z"), key("bin", "a"), key("base", "m")];
    assert_eq!(stable_order(&keys), vec![3, 2, 1, 0]);
}

#[test]
fn stable_order_keeps_equal_keys_in_place() {
    let keys = vec![key("b", "x"), key("a", "x"), key("b", "x"), key("a", "x"), key("b", "x")];
    assert_eq!(stable_order(&keys), vec![1, 3, 0, 2, 4]);
}

#[test]
fn stable_order_of_few() {
    assert_eq!(stable_order(&vec![]), Vec::<usize>::new());
    assert_eq!(stable_order(&vec![key("a", "b")]), vec![0]);
}

#[test]
fn stable_order_agrees_with_a_stable_sort() {
    let mut keys = Vec::new();
    let mut seed: u32 = 12345;
    for _ in 0..500 {
        seed = seed.wrapping_mul(1103515245).wrapping_add(12345);
        let a = (seed >> 16) % 5;
        seed = seed.wrapping_mul(1103515245).wrapping_add(12345);
        let b = (seed >> 16) % 7;
        keys.push(key(&format!("c{a}"), &format!("n{b}")));
    }
    let mut expected: Vec<usize> = (0..keys.len()).collect();
    expected.sort_by(|&x, &y| {
        (keys[x].major.clone(), keys[x].minor.clone()).cmp(&(keys[y].major.clone(), keys[y].minor.clone()))
    });
    assert_eq!(stable_order(&keys), expected);
}
