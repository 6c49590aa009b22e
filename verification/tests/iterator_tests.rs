use lessons::fashion::is_correct;
use lessons::fashion::Fashion;

#[test]
fn test_iterator() {
    let mut v = vec![1, 2, 3];

    let mut iter = v.iter_mut();

    assert_eq!(iter.next(), Some(&mut 1));
    assert_eq!(iter.next(), Some(&mut 2));
    assert_eq!(iter.next(), Some(&mut 3));
    assert_eq!(iter.next(), None);

    let v1 = vec![1, 2, 3];

    let result: Vec<_> = v1.iter().map(|x| x * 2).collect();

    assert_eq!(result, vec![2, 4, 6]);
}

#[test]
fn test_size() {
    let styles = vec![
        Fashion { style: String::from("red"), size: 10 },
        Fashion { style: String::from("blue"), size: 20 },
        Fashion { style: String::from("green"), size: 20 },
    ];

    let my_styles = is_correct(styles, 20);

    assert_eq!(
        my_styles,
        vec![
            Fashion { style: String::from("blue"), size: 20 },
            Fashion { style: String::from("green"), size: 20 },
        ]
    );
}
