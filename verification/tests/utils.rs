use pijersi_rs::errors::ParseErrorKind;
use pijersi_rs::utils::{argsort, parse_bool_arg, reverse_argsort};

#[test]
fn test_argsort() {
    let data = [3i16, -1, 7, 3, 0];
    assert_eq!(argsort(&data, false), vec![1, 4, 0, 3, 2]);
    assert_eq!(argsort(&data, true), vec![2, 3, 0, 4, 1]);
    assert_eq!(argsort(&[], true), Vec::<usize>::new());
}

/// Writing back the sorted values at the positions of the order restores the data.
#[test]
fn test_reverse_argsort() {
    let data = [3i16, -1, 7, 3, 0];
    let order = argsort(&data, true);
    let sorted: Vec<i16> = order.iter().map(|&i| data[i]).collect();
    assert_eq!(sorted, vec![7, 3, 3, 0, -1]);
    assert_eq!(reverse_argsort(&sorted, &order), data.to_vec());
}

#[test]
fn test_parse_bool_arg() {
    assert_eq!(parse_bool_arg("true").unwrap(), true);
    assert_eq!(parse_bool_arg("false").unwrap(), false);
    let error = parse_bool_arg("yes").unwrap_err();
    assert_eq!(error.kind, ParseErrorKind::InvalidBool);
    assert_eq!(error.value, "yes");
}
