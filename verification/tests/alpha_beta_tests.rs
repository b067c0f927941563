use tinue_finder::alpha_beta::NodeValue::{LossInPly, Unknown, WinInPly};

#[test]
fn node_values_sorting_test() {
    let mut node_values = vec![LossInPly(9), Unknown, WinInPly(2), WinInPly(4), LossInPly(3)];
    node_values.sort_unstable_by(|a, b| a.partial_cmp(b).unwrap());
    assert_eq!(
        node_values,
        vec![LossInPly(3), LossInPly(9), Unknown, WinInPly(4), WinInPly(2)]
    );
}

#[test]
fn node_value_order_chain_test() {
    // wins sooner outrank wins later; any win outranks Unknown, which
    // outranks any loss; losses further away outrank losses sooner
    assert!(WinInPly(2) > WinInPly(4));
    assert!(WinInPly(4) > Unknown);
    assert!(Unknown > LossInPly(4));
    assert!(LossInPly(4) > LossInPly(2));
    assert!(WinInPly(2) > Unknown);
    assert!(WinInPly(4) > LossInPly(2));
    assert!(Unknown == Unknown);
    assert!(WinInPly(3) == WinInPly(3));
}

#[test]
fn propagate_round_trip_boundary_test() {
    // at ply zero the saturating subtraction makes the down-then-up round
    // trip land one ply off; everywhere else it returns to the start
    assert_eq!(WinInPly(0).propagate_down().propagate_up(), WinInPly(1));
    assert_eq!(LossInPly(0).propagate_down().propagate_up(), LossInPly(1));
    assert_eq!(WinInPly(5).propagate_down().propagate_up(), WinInPly(5));
    assert_eq!(LossInPly(7).propagate_down().propagate_up(), LossInPly(7));
    assert_eq!(Unknown.propagate_down().propagate_up(), Unknown);
}

#[test]
fn propagate_up_down_test() {
    assert_eq!(WinInPly(3).propagate_up(), LossInPly(4));
    assert_eq!(LossInPly(3).propagate_up(), WinInPly(4));
    assert_eq!(Unknown.propagate_up(), Unknown);
    assert_eq!(WinInPly(3).propagate_down(), LossInPly(2));
    assert_eq!(LossInPly(3).propagate_down(), WinInPly(2));
    assert_eq!(WinInPly(0).propagate_down(), LossInPly(0));
    assert_eq!(Unknown.propagate_down(), Unknown);
}
