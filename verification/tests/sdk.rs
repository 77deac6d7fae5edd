use alux::sdk::collection::{collect_exact, try_collect_vec, try_unzip};
use alux::sdk::conversion::{is_some_eq, map_err_into, map_opt, option_map_into, result_map_into, to};
use alux::sdk::iteration::{skip_nth, stop_if};

#[test]
fn try_to_const() {
    let inp = &[1, 2, 3][..];

    let res = alux::sdk::collection::try_to_const(inp);
    assert_eq!(&[1, 2], res.unwrap());

    let res = alux::sdk::collection::try_to_const(inp);
    assert_eq!(&[1, 2, 3], res.unwrap());

    let res = alux::sdk::collection::try_to_const::<_, 4>(inp);
    assert!(res.is_err());
}

#[test]
fn try_to_const_mut() {
    let inp = &mut [1, 2, 3][..];

    let res = alux::sdk::collection::try_to_const_mut(inp);
    assert_eq!(&mut [1, 2], res.unwrap());

    let res = alux::sdk::collection::try_to_const_mut(inp);
    assert_eq!(&mut [1, 2, 3], res.unwrap());

    let res = alux::sdk::collection::try_to_const_mut::<_, 4>(inp);
    assert!(res.is_err());
}

#[test]
fn collect_exact_accepts_only_the_requested_shape() {
    assert_eq!(collect_exact((0..3).collect(), 3), Some(vec![0, 1, 2]));
    assert_eq!(collect_exact((0..3).collect::<Vec<_>>(), 2), None);
    assert_eq!(collect_exact((0..3).collect::<Vec<_>>(), 4), None);
}

#[test]
fn try_collect_vec_stops_at_the_first_error() {
    let result = try_collect_vec(vec![Ok(1), Ok(2), Err("stop"), Ok(3)]);
    assert_eq!(result, Err("stop"));
}

#[test]
fn try_unzip_preserves_pair_order() {
    let result = try_unzip(vec![Ok::<_, ()>((1, "a")), Ok((2, "b"))]);
    assert_eq!(result, Ok((vec![1, 2], vec!["a", "b"])));
}

#[test]
fn try_unzip_stops_at_the_first_error() {
    let result = try_unzip(vec![Ok((1, "a")), Err("stop"), Ok((3, "c"))]);
    assert_eq!(result, Err("stop"));
}

#[test]
fn try_to_const_borrows_a_prefix() {
    assert_eq!(alux::sdk::collection::try_to_const::<_, 2>([1, 2, 3].as_slice()).expect("two-item prefix"), &[1, 2]);
    assert!(alux::sdk::collection::try_to_const::<_, 4>([1, 2, 3].as_slice()).is_err());
}

#[test]
fn try_to_const_mut_borrows_a_mutable_prefix() {
    let mut values = [1, 2, 3];
    let prefix = alux::sdk::collection::try_to_const_mut::<_, 2>(values.as_mut_slice()).expect("two-item mutable prefix");
    prefix[0] = 7;
    assert_eq!(values, [7, 2, 3]);
}

#[test]
fn test_skip_nth() {
    assert_eq!(skip_nth((0..4).collect(), 0), vec![1, 2, 3]);
    assert_eq!(skip_nth((0..4).collect(), 2), vec![0, 1, 3]);
    assert_eq!(skip_nth((0..4).collect(), 3), vec![0, 1, 2]);
}

#[test]
fn test_stop_if() {
    assert_eq!(stop_if((0..10).collect(), |value: &i32| *value > 2), vec![0, 1, 2, 3]);
}

#[test]
fn skip_nth_past_the_end_keeps_everything() {
    assert_eq!(skip_nth(vec![5, 6], 9), vec![5, 6]);
    assert_eq!(skip_nth(Vec::<u8>::new(), 0), Vec::<u8>::new());
}

#[test]
fn stop_if_that_never_holds_keeps_everything() {
    assert_eq!(stop_if(vec![1, 2, 3], |_: &i32| false), vec![1, 2, 3]);
    assert_eq!(stop_if(vec![1, 2, 3], |_: &i32| true), vec![1]);
    assert_eq!(stop_if(Vec::<i32>::new(), |_: &i32| true), Vec::<i32>::new());
}

#[test]
fn collect_exact_of_nothing() {
    assert_eq!(collect_exact(Vec::<u8>::new(), 0), Some(vec![]));
    assert_eq!(collect_exact(Vec::<u8>::new(), 1), None);
}

#[test]
fn try_collect_vec_of_successes_keeps_every_value_in_order() {
    assert_eq!(try_collect_vec::<_, ()>(vec![Ok(3), Ok(1), Ok(2)]), Ok(vec![3, 1, 2]));
    assert_eq!(try_collect_vec::<u8, ()>(vec![]), Ok(vec![]));
    assert_eq!(try_collect_vec(vec![Err::<u8, _>("first"), Err("second")]), Err("first"));
}

#[test]
fn conversions_go_through_into() {
    let widened: u64 = to(7u32);
    assert_eq!(widened, 7);
    assert_eq!(option_map_into::<u8, u16>(Some(3)), Some(3u16));
    assert_eq!(option_map_into::<u8, u16>(None), None);
    assert_eq!(result_map_into::<u8, u32, ()>(Ok(4)), Ok(4u32));
    assert_eq!(result_map_into::<u8, u32, &str>(Err("no")), Err("no"));
    assert_eq!(map_err_into::<u8, u8, u16>(Err(9)), Err(9u16));
    assert_eq!(map_err_into::<u8, u8, u16>(Ok(1)), Ok(1));
}

#[test]
fn is_some_eq_compares_only_a_present_value() {
    assert!(is_some_eq(&Some(3), &3));
    assert!(!is_some_eq(&Some(3), &4));
    assert!(!is_some_eq(&None, &3));
}

#[test]
fn map_opt_maps_only_a_present_success() {
    assert_eq!(map_opt::<i32, (), i32, _>(Ok(Some(2)), |x| x * 10), Ok(Some(20)));
    assert_eq!(map_opt::<i32, (), i32, _>(Ok(None), |x| x * 10), Ok(None));
    assert_eq!(map_opt::<i32, &str, i32, _>(Err("e"), |x| x * 10), Err("e"));
}
