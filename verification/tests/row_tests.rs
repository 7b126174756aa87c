use http_diff::utils::collapse_str;

#[test]
pub fn test_collapse_str() {
    let test_cases = vec![
        (
            "Lorem ipsum dolor sit amet, consectetur adipiscing elit, se".to_owned(),
            20,
            "Lorem ipsum dolor...".to_owned(),
        ),
        (
            "Lorem ipsum dolor".to_owned(),
            20,
            "Lorem ipsum dolor   ".to_owned(),
        ),
        (
            "Lorem ipsum dolor si".to_owned(),
            20,
            "Lorem ipsum dolor si".to_owned(),
        ),
        ("".to_owned(), 20, "                    ".to_owned()),
    ];

    for (input, max_length, expected) in test_cases {
        let actual = collapse_str(&input, max_length);

        assert_eq!(actual, expected)
    }
}
