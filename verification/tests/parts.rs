use simdiir::biquad_avx::BiQuadAVX;
use simdiir::biquad_i32::BiQuadI32;
use simdiir::biquad_sse2::BiQuadSSE2;
use simdiir::block::{
    broadcast_mul_add, combine, combine_interleaved, derive_matrix, gather, lanes_add,
    process_block,
};
use simdiir::denormal::{FlushMode, ScopedFlushDenormals};
use simdiir::lane::{lane_add, lane_mul, lane_mul_add, lane_sub};
use simdiir::linearize::{linearized_column, seed_tap, tap_lane, Tap};
use simdiir::recurrence::{Coefficients, History};
use simdiir::run::{load, run_avx, run_i32, run_sse2, store};

fn general() -> Coefficients {
    Coefficients { a0: 2, a1: 3, a2: 5, b1: 7, b2: 11 }
}

#[test]
fn lane_add_wraps() {
    assert_eq!(lane_add(2, 3), 5);
    assert_eq!(lane_add(i32::MAX, 1), i32::MIN);
    assert_eq!(lane_add(i32::MIN, -1), i32::MAX);
}

#[test]
fn lane_sub_wraps() {
    assert_eq!(lane_sub(2, 3), -1);
    assert_eq!(lane_sub(i32::MIN, 1), i32::MAX);
    assert_eq!(lane_sub(0, i32::MIN), i32::MIN);
}

#[test]
fn lane_mul_wraps() {
    assert_eq!(lane_mul(-4, 5), -20);
    assert_eq!(lane_mul(i32::MAX, 2), -2);
    assert_eq!(lane_mul(65536, 65536), 0);
    assert_eq!(lane_mul(i32::MIN, -1), i32::MIN);
}

#[test]
fn lane_mul_add_wraps() {
    assert_eq!(lane_mul_add(3, 4, 5), 17);
    assert_eq!(lane_mul_add(i32::MAX, 2, 3), 1);
    assert_eq!(lane_mul_add(65536, 32768, -1), i32::MAX);
}

#[test]
fn seed_taps_width_four() {
    let (zero, a0, a1, a2) = (Tap::Zero, Tap::A0, Tap::A1, Tap::A2);
    let (nb1, nb2) = (Tap::NegB1, Tap::NegB2);
    let expected = [
        [zero, zero, zero, a0, a1, a2, nb1, nb2],
        [zero, zero, a0, a1, a2, zero, nb2, zero],
        [zero, a0, a1, a2, zero, zero, zero, zero],
        [a0, a1, a2, zero, zero, zero, zero, zero],
    ];
    for k in 0..4 {
        for j in 0..8 {
            assert_eq!(seed_tap(4, k, j), expected[k][j], "row {} column {}", k, j);
        }
    }
}

#[test]
fn seed_taps_width_eight() {
    for k in 0..8usize {
        for j in 0..12usize {
            let expected = if j < 10 {
                if j + k == 7 {
                    Tap::A0
                } else if j + k == 8 {
                    Tap::A1
                } else if j + k == 9 {
                    Tap::A2
                } else {
                    Tap::Zero
                }
            } else if (k, j) == (0, 10) {
                Tap::NegB1
            } else if (k, j) == (0, 11) || (k, j) == (1, 10) {
                Tap::NegB2
            } else {
                Tap::Zero
            };
            assert_eq!(seed_tap(8, k, j), expected, "row {} column {}", k, j);
        }
    }
}

#[test]
fn tap_lane_values() {
    let c = general();
    assert_eq!(tap_lane(&c, Tap::Zero), 0);
    assert_eq!(tap_lane(&c, Tap::A0), 2);
    assert_eq!(tap_lane(&c, Tap::A1), 3);
    assert_eq!(tap_lane(&c, Tap::A2), 5);
    assert_eq!(tap_lane(&c, Tap::NegB1), -7);
    assert_eq!(tap_lane(&c, Tap::NegB2), -11);
}

#[test]
fn tap_lane_negates_in_the_lane() {
    let c = Coefficients { a0: 0, a1: 0, a2: 0, b1: i32::MIN, b2: i32::MAX };
    assert_eq!(tap_lane(&c, Tap::NegB1), i32::MIN);
    assert_eq!(tap_lane(&c, Tap::NegB2), i32::MIN + 1);
}

#[test]
fn linearized_column_values() {
    let c = general();
    assert_eq!(linearized_column::<4>(&c, 3), [2, -11, 60, -299]);
    assert_eq!(linearized_column::<4>(&c, 6), [-7, 38, -189, 905]);
    assert_eq!(linearized_column::<4>(&c, 7), [-11, 77, -418, 2079]);
    assert_eq!(linearized_column::<4>(&c, 0), [0, 0, 0, 2]);
}

#[test]
fn derive_matrix_is_all_columns() {
    let c = general();
    let m = derive_matrix::<4, 8>(&c);
    for j in 0..8 {
        assert_eq!(m[j], linearized_column::<4>(&c, j));
    }
    let m8 = derive_matrix::<8, 12>(&c);
    for j in 0..12 {
        assert_eq!(m8[j], linearized_column::<8>(&c, j));
    }
}

#[test]
fn gather_orders_newest_first() {
    let h = History { xm1: -1, xm2: -2, ym1: -10, ym2: -20 };
    let slots: [i32; 8] = gather::<4, 8>(&h, &[100, 101, 102, 103]);
    assert_eq!(slots, [103, 102, 101, 100, -1, -2, -10, -20]);
}

#[test]
fn broadcast_mul_add_lanes() {
    assert_eq!(broadcast_mul_add(&[1, 2, 3, 4], 10, &[5, 6, 7, 8]), [15, 26, 37, 48]);
    assert_eq!(broadcast_mul_add(&[i32::MAX, 1], 2, &[0, 0]), [-2, 2]);
}

#[test]
fn lanes_add_lanes() {
    assert_eq!(lanes_add(&[1, 2, i32::MAX], &[10, 20, 1]), [11, 22, i32::MIN]);
}

#[test]
fn combine_weights_columns() {
    let cols: [[i32; 2]; 3] = [[1, 2], [3, 4], [5, 6]];
    let slots = [10, 100, 1000];
    assert_eq!(combine(&cols, &slots), [5310, 6420]);
    assert_eq!(combine_interleaved(&cols, &slots), [5310, 6420]);
}

#[test]
fn combine_orders_agree_when_wrapping() {
    let c = Coefficients { a0: i32::MAX, a1: i32::MIN, a2: 77, b1: 123_456_789, b2: -5 };
    let cols = derive_matrix::<8, 12>(&c);
    let slots = [i32::MAX, i32::MIN, 3, -4, 5, -6, 7, -8, 9, -10, 11, -12];
    assert_eq!(combine(&cols, &slots), combine_interleaved(&cols, &slots));
}

#[test]
fn process_block_both_orders() {
    let c = general();
    let cols = derive_matrix::<4, 8>(&c);
    let h = History::silent();
    let (y, next) = process_block::<4, 8>(&c, &cols, &h, &[1, -2, 3, -4], false);
    assert_eq!(y, [2, -15, 88, -460]);
    assert_eq!(next, History { xm1: -4, xm2: 3, ym1: -460, ym2: 88 });
    let (y2, next2) = process_block::<4, 8>(&c, &cols, &h, &[1, -2, 3, -4], true);
    assert_eq!((y2, next2), (y, next));
}

#[test]
fn process_block_from_carried_history() {
    let c = Coefficients {
        a0: i32::MAX,
        a1: i32::MIN,
        a2: 123_456_789,
        b1: -987_654_321,
        b2: 1_000_000_007,
    };
    let cols = derive_matrix::<4, 8>(&c);
    let h = History { xm1: 5, xm2: -6, ym1: 7, ym2: -8 };
    let (y, next) = process_block::<4, 8>(&c, &cols, &h, &[i32::MAX, i32::MIN, 1, -1], false);
    assert_eq!(y, [-859545966, -195285462, -709139466, -196499983]);
    assert_eq!(next, History { xm1: -1, xm2: 1, ym1: -196499983, ym2: -709139466 });
}

#[test]
fn guard_turns_mode_on_then_off() {
    let mut mode = FlushMode::Off;
    let guard = ScopedFlushDenormals::new(&mut mode);
    assert_eq!(mode, FlushMode::On);
    guard.release(&mut mode);
    assert_eq!(mode, FlushMode::Off);
}

#[test]
fn guard_release_does_not_restore() {
    let mut mode = FlushMode::On;
    let guard = ScopedFlushDenormals::new(&mut mode);
    assert_eq!(mode, FlushMode::On);
    guard.release(&mut mode);
    assert_eq!(mode, FlushMode::Off);
}

#[test]
fn guards_do_not_nest() {
    let mut mode = FlushMode::Off;
    let outer = ScopedFlushDenormals::new(&mut mode);
    let inner = ScopedFlushDenormals::new(&mut mode);
    inner.release(&mut mode);
    assert_eq!(mode, FlushMode::Off);
    outer.release(&mut mode);
    assert_eq!(mode, FlushMode::Off);
}

#[test]
fn load_takes_a_block() {
    let input = [1, 2, 3, 4, 5, 6, 7, 8, 9];
    assert_eq!(load::<4>(&input, 4), [5, 6, 7, 8]);
    assert_eq!(load::<8>(&input, 1), [2, 3, 4, 5, 6, 7, 8, 9]);
}

#[test]
fn store_overwrites_a_block() {
    let mut output = vec![0; 7];
    store::<4>(&mut output, 2, &[1, 2, 3, 4]);
    assert_eq!(output, vec![0, 0, 1, 2, 3, 4, 0]);
}

#[test]
fn run_i32_impulse() {
    let mut input = vec![0; 8];
    input[0] = 1;
    let mut output = vec![0; 8];
    let mut b = BiQuadI32::new(general());
    run_i32(&mut b, &input, &mut output);
    assert_eq!(output, vec![2, -11, 60, -299, 1433, -6742, 31431, -145855]);
    assert_eq!(b.state(), History { xm1: 0, xm2: 0, ym1: -145855, ym2: 31431 });
}

#[test]
fn run_i32_stops_at_shorter_buffer() {
    let input = [1, 0, 0, 0, 0];
    let mut output = vec![99; 3];
    let mut b = BiQuadI32::new(general());
    run_i32(&mut b, &input, &mut output);
    assert_eq!(output, vec![2, -11, 60]);
    let mut long = vec![99; 7];
    let mut b = BiQuadI32::new(general());
    run_i32(&mut b, &input[..2], &mut long);
    assert_eq!(long, vec![2, -11, 99, 99, 99, 99, 99]);
}

#[test]
fn run_sse2_drops_tail() {
    let input = [1, 0, 0, 0, 0, 0, 0, 0, 0, 0, 0];
    let mut output = vec![99; 11];
    let mut b = BiQuadSSE2::new(general());
    run_sse2(&mut b, &input, &mut output);
    assert_eq!(output, vec![2, -11, 60, -299, 1433, -6742, 31431, -145855, 99, 99, 99]);
    assert_eq!(b.state(), History { xm1: 0, xm2: 0, ym1: -145855, ym2: 31431 });
}

#[test]
fn run_sse2_stops_at_shorter_output() {
    let input = [1, 0, 0, 0, 0, 0, 0, 0];
    let mut output = vec![99; 6];
    let mut b = BiQuadSSE2::new(general());
    run_sse2(&mut b, &input, &mut output);
    assert_eq!(output, vec![2, -11, 60, -299, 99, 99]);
}

#[test]
fn run_avx_drops_tail() {
    let input = [1, 0, 0, 0, 0, 0, 0, 0, 0, 0, 0, 0, 0, 0, 0];
    let mut output = vec![99; 15];
    let mut b = BiQuadAVX::new(general());
    run_avx(&mut b, &input, &mut output);
    assert_eq!(
        output,
        vec![2, -11, 60, -299, 1433, -6742, 31431, -145855, 99, 99, 99, 99, 99, 99, 99]
    );
}

#[test]
fn run_short_input_does_nothing() {
    let input = [1, 2, 3];
    let mut output = vec![99; 3];
    let mut s = BiQuadSSE2::new(general());
    run_sse2(&mut s, &input, &mut output);
    assert_eq!(output, vec![99, 99, 99]);
    assert_eq!(s.state(), History::silent());
    let mut a = BiQuadAVX::new(general());
    run_avx(&mut a, &[1, 2, 3, 4, 5, 6, 7], &mut output);
    assert_eq!(output, vec![99, 99, 99]);
    assert_eq!(a.state(), History::silent());
}

#[test]
fn runs_agree_on_impulse_of_256() {
    let mut input = vec![0; 256];
    input[0] = 1;
    let c = Coefficients::one_pole(-27594);
    let mut expected = vec![0; 256];
    let mut got4 = vec![0; 256];
    let mut got8 = vec![0; 256];
    run_i32(&mut BiQuadI32::new(c), &input, &mut expected);
    run_sse2(&mut BiQuadSSE2::new(c), &input, &mut got4);
    run_avx(&mut BiQuadAVX::new(c), &input, &mut got8);
    assert_eq!(expected[0], -27594);
    assert_eq!(expected[1], 1i32.wrapping_sub((-27594i32).wrapping_mul(-27594)));
    assert_eq!(got4, expected);
    assert_eq!(got8, expected);
}
