use alux::traversable::iter;
use alux::traversable::option;

#[test]
fn test_traverse() {
    // Result Ok

    for input in [Some(42), None] {
        let res: Result<_, ()> = option::traverse(input, Ok);

        assert_eq!(res, Ok(input));
    }

    let res: Result<Option<i32>, ()> = option::traverse(None, |()| Err(()));

    assert_eq!(res, Ok(None));

    // Result Err

    let res: Result<Option<i32>, ()> = option::traverse(Some(42), |_| Err(()));

    assert_eq!(res, Err(()));
}

#[test]
fn test_traverse_opt() {
    // Result Ok

    let res: Result<_, ()> = option::traverse_opt(Some(42), |x| Ok(Some(x + x)));

    assert_eq!(res, Ok(Some(84)));

    let res: Result<_, ()> = option::traverse_opt(Option::<i32>::None, |x| Ok(Some(x + x)));

    assert_eq!(res, Ok(None));

    let res: Result<Option<i32>, ()> = option::traverse_opt(Some(42), |_| Ok(None));

    assert_eq!(res, Ok(None));

    let res: Result<Option<i32>, ()> = option::traverse_opt(None, |_: u32| Err(()));

    assert_eq!(res, Ok(None));

    // Result Err

    let res: Result<Option<i32>, ()> = option::traverse_opt(Some(42), |_| Err(()));

    assert_eq!(res, Err(()));
}

#[test]
fn test_traverse_iter() {
    // Result Ok
    let input_vec = [vec![1, 2], vec![], vec![3]];
    let input_opt = [Some(1), Some(2), None, Some(3)];

    let res_vec: Result<Vec<i32>, ()> =
        iter::traverse_iter(input_vec.to_vec(), |xs: Vec<i32>| Ok(xs.into_iter().map(|x| x + x).collect()));

    let res_opt: Result<Vec<i32>, ()> = iter::traverse_iter(input_opt.to_vec(), |_| Ok(vec![]));

    assert_eq!(res_vec, Ok(vec![2, 4, 6]));
    assert_eq!(res_opt, Ok(vec![]));

    // Simplest error
    let err = Result::<Vec<i32>, ()>::Err(());

    // Traverse empty
    let res_vec: Result<Vec<i32>, ()> = iter::traverse_iter(Vec::<i32>::new(), |_: i32| err.clone());
    let res_opt: Result<Vec<i32>, ()> =
        iter::traverse_iter(None::<i32>.into_iter().collect(), |_: i32| err.clone());

    assert_eq!(res_vec, Ok(vec![]));
    assert_eq!(res_opt, Ok(vec![]));

    // Result Err

    let res_vec: Result<Vec<i32>, ()> = iter::traverse_iter(vec![1], |_| err.clone());
    let res_opt: Result<Vec<i32>, ()> = iter::traverse_iter(Some(1).into_iter().collect(), |_| err.clone());

    assert_eq!(res_vec, Err(()));
    assert_eq!(res_opt, Err(()));
}

#[test]
fn test_sequence() {
    for (input, expected) in [
        // Result Ok
        (Some(Ok(42)), Ok(Some(42))),
        (None, Ok(None)),
        // Result Err
        (Some(Err(())), Err(())),
    ] {
        let res = option::sequence(input);

        assert_eq!(res, expected);
    }
}

#[test]
fn test_sequence_opt() {
    for (input, expected) in [
        // Result Ok
        (Some(Ok(Some(42))), Ok(Some(42))),
        (Some(Ok(None)), Ok(None)),
        (None, Ok(None)),
        // Result Err
        (Some(Err(())), Err(())),
    ] {
        let res = option::sequence_opt(input);

        assert_eq!(res, expected);
    }
}

#[test]
fn test_sequence_iter() {
    for (input_vec, input_opt, expected) in [
        // Result Ok
        (
            // Input Vec
            vec![Ok(vec![1, 2]), Ok(vec![]), Ok(vec![3])],
            // Input Option
            vec![Ok(Some(1)), Ok(Some(2)), Ok(None), Ok(Some(3))],
            // Expected result
            Ok(vec![1, 2, 3]),
        ),
        (vec![Ok(vec![])], vec![Ok(None)], Ok(vec![])),
        // Result Err
        (vec![Err(())], vec![Err(())], Err(())),
    ] {
        let res_vec = iter::sequence_iter(input_vec);
        let input_opt: Vec<Result<Vec<i32>, ()>> =
            input_opt.into_iter().map(|item| item.map(|value: Option<i32>| value.into_iter().collect())).collect();
        let res_opt = iter::sequence_iter(input_opt);

        assert_eq!(res_vec, expected);
        assert_eq!(res_opt, expected);
    }
}

#[test]
fn iterator_traverse_preserves_shape_and_error() {
    let success: Result<Vec<_>, ()> = iter::traverse(vec![1, 2, 3], |x| Ok(x + x));
    assert_eq!(success, Ok(vec![2, 4, 6]));

    let empty: Result<Vec<i32>, ()> = iter::traverse(Vec::<i32>::new(), |x: i32| Ok(x));
    assert_eq!(empty, Ok(vec![]));

    let failure: Result<Vec<i32>, ()> = iter::traverse(vec![1], |_| Err(()));
    assert_eq!(failure, Err(()));

    let mut total = 0;
    let stateful: Result<Vec<_>, ()> = iter::traverse(vec![1, 2, 3], |value| {
        total += value;
        Ok(total)
    });
    assert_eq!(stateful, Ok(vec![1, 3, 6]));
}

#[test]
fn iterator_traverse_opt_filters_none_and_preserves_error() {
    let success: Result<Vec<_>, ()> = iter::traverse_opt(vec![Some(1), None, Some(3)], Ok);
    assert_eq!(success, Ok(vec![1, 3]));

    let failure: Result<Vec<i32>, ()> = iter::traverse_opt(vec![1], |_| Err(()));
    assert_eq!(failure, Err(()));
}

#[test]
fn iterator_sequence_preserves_shape_and_error() {
    let success = iter::sequence(vec![Ok(1), Ok(2), Ok(3)]);
    assert_eq!(success, Ok::<_, ()>(vec![1, 2, 3]));

    let failure = iter::sequence(vec![Ok(1), Err(()), Ok(3)]);
    assert_eq!(failure, Err(()));
}

#[test]
fn iterator_sequence_opt_filters_none_and_preserves_error() {
    let success = iter::sequence_opt(vec![Ok(Some(1)), Ok(None), Ok(Some(3))]);
    assert_eq!(success, Ok::<_, ()>(vec![1, 3]));

    let failure = iter::sequence_opt(vec![Ok(Some(1)), Err(())]);
    assert_eq!(failure, Err(()));
}

#[test]
fn traversal_stops_calling_after_the_first_error() {
    let mut called = Vec::new();
    let result: Result<Vec<i32>, i32> = iter::traverse(vec![1, 2, 3, 4], |value| {
        called.push(value);
        if value == 2 { Err(value) } else { Ok(value) }
    });
    assert_eq!(result, Err(2));
    assert_eq!(called, vec![1, 2]);
}

#[test]
fn sequence_of_successes_keeps_each_in_order() {
    assert_eq!(iter::sequence(vec![Ok::<_, ()>("a"), Ok("b")]), Ok(vec!["a", "b"]));
    assert_eq!(option::sequence(Some(Ok::<_, ()>(5))), Ok(Some(5)));
}

#[test]
fn sequencing_is_traversing_with_the_identity() {
    let items: Vec<Result<Vec<i32>, &str>> = vec![Ok(vec![1, 2]), Ok(vec![]), Ok(vec![3])];
    assert_eq!(iter::sequence_iter(items.clone()), iter::traverse_iter(items, |r| r));
    assert_eq!(iter::sequence_iter(vec![Ok(vec![1, 2]), Ok(vec![]), Ok(vec![3])]), Ok::<_, &str>(vec![1, 2, 3]));
    let failing: Vec<Result<Vec<i32>, &str>> = vec![Ok(vec![1]), Err("first"), Err("second")];
    assert_eq!(iter::sequence_iter(failing.clone()), iter::traverse_iter(failing, |r| r));
}

#[test]
fn traversing_an_option_is_mapping_then_transposing() {
    let halve = |x: i32| if x % 2 == 0 { Ok(x / 2) } else { Err(x) };
    for input in [Some(4), Some(3), None] {
        assert_eq!(option::traverse(input, halve), input.map(halve).transpose());
    }
}
