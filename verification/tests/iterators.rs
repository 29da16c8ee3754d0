use bankaccounts::shoes::{shoes_in_size, Shoe};

#[test]
fn iterator_demonstration() {
    let v1 = vec![1, 2, 3];

    let mut v1_iter = v1.iter();

    assert_eq!(v1_iter.next(), Some(1).as_ref());
    assert_eq!(v1_iter.next(), Some(2).as_ref());
    assert_eq!(v1_iter.next(), Some(3).as_ref());
    assert_eq!(v1_iter.next(), None);
}

#[test]
fn iterator_sum() {
    let v1 = vec![1, 2, 3];

    let v1_iter = v1.iter();

    let total: i32 = v1_iter.sum();

    assert_eq!(total, 6);
}

#[test]
fn iterator_map() {
    let v1 = vec![1, 2, 3];

    let v2: Vec<_> = v1.iter().map(|x| x * 2).collect();

    assert_eq!(vec![2, 4, 6], v2);
}

#[test]
fn filters_by_size() {
    let shoes = vec![
        Shoe {
            size: 10,
            style: String::from("sneaker"),
        },
        Shoe {
            size: 13,
            style: String::from("sneaker"),
        },
        Shoe {
            size: 12,
            style: String::from("slipper"),
        },
        Shoe {
            size: 10,
            style: String::from("boot"),
        },
    ];

    let in_my_size = shoes_in_size(shoes, 10);

    assert_eq!(
        in_my_size,
        vec![
            Shoe {
                size: 10,
                style: String::from("sneaker"),
            },
            Shoe {
                size: 10,
                style: String::from("boot"),
            },
        ]
    );
}

#[test]
fn filters_by_size_keeps_none_of_a_missing_size() {
    let shoes = vec![
        Shoe {
            size: 10,
            style: String::from("sneaker"),
        },
        Shoe {
            size: 12,
            style: String::from("slipper"),
        },
    ];
    assert_eq!(shoes_in_size(shoes, 11), vec![]);
    assert_eq!(shoes_in_size(Vec::new(), 11), vec![]);
}
