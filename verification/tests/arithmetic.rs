use dcfr::fixed::{Fixed, ONE_RAW};
use dcfr::matching::{divide_columns, positive_parts, regret_matching};
use dcfr::scalar::Scalar;
use dcfr::update::{
    discount_regrets, discount_schedule, expected_value, sum_rows, update_regrets,
    update_strategy, Discount,
};
use dcfr::vector::{
    add_assign_vec, div_assign_vec, filled, mul_assign_scalar, mul_assign_vec, mul_vec,
    nonneg_assign_vec, sub_assign_vec,
};

fn fx(num: i64, den: i64) -> Fixed {
    Fixed { raw: num * ONE_RAW / den }
}

fn raws(v: &Vec<Fixed>) -> Vec<i64> {
    v.iter().map(|x| x.raw).collect()
}

#[test]
fn fixed_from_int_scales_by_one() {
    assert_eq!(Fixed::from_int(0).raw, 0);
    assert_eq!(Fixed::from_int(1).raw, ONE_RAW);
    assert_eq!(Fixed::from_int(-3).raw, -3 * ONE_RAW);
}

#[test]
fn fixed_from_int_saturates() {
    assert_eq!(Fixed::from_int(i128::MAX).raw, i64::MAX);
    assert_eq!(Fixed::from_int(i128::MIN).raw, i64::MIN);
    assert_eq!(Fixed::from_int(1i128 << 40).raw, i64::MAX);
    assert_eq!(Fixed::from_int(-(1i128 << 40)).raw, i64::MIN);
}

#[test]
fn fixed_add_and_sub() {
    assert_eq!(fx(3, 2).add(fx(5, 2)).raw, 4 * ONE_RAW);
    assert_eq!(fx(3, 2).sub(fx(5, 2)).raw, -ONE_RAW);
    assert_eq!(Fixed { raw: i64::MAX }.add(Fixed { raw: 1 }).raw, i64::MAX);
    assert_eq!(Fixed { raw: i64::MIN }.sub(Fixed { raw: 1 }).raw, i64::MIN);
}

#[test]
fn fixed_mul_rounds_down() {
    assert_eq!(fx(3, 2).mul(fx(5, 2)).raw, 15 * ONE_RAW / 4);
    assert_eq!(Fixed { raw: 1 }.mul(Fixed { raw: 1 }).raw, 0);
    assert_eq!(Fixed { raw: -1 }.mul(Fixed { raw: 1 }).raw, -1);
    assert_eq!(Fixed { raw: i64::MAX }.mul(Fixed::from_int(2)).raw, i64::MAX);
    assert_eq!(Fixed { raw: i64::MIN }.mul(Fixed::from_int(2)).raw, i64::MIN);
}

#[test]
fn fixed_div_rounds_down() {
    assert_eq!(Fixed::from_int(1).div(Fixed::from_int(3)).raw, 5592405);
    assert_eq!(Fixed::from_int(-1).div(Fixed::from_int(3)).raw, -5592406);
    assert_eq!(Fixed::from_int(6).div(Fixed::from_int(4)).raw, 3 * ONE_RAW / 2);
}

#[test]
fn fixed_div_by_zero_goes_to_the_end_of_the_range() {
    let zero = Fixed::from_int(0);
    assert_eq!(Fixed::from_int(1).div(zero).raw, i64::MAX);
    assert_eq!(Fixed::from_int(-1).div(zero).raw, i64::MIN);
    assert_eq!(zero.div(zero).raw, 0);
}

#[test]
fn fixed_sqrt_rounds_down() {
    assert_eq!(Fixed::from_int(4).sqrt().raw, 2 * ONE_RAW);
    assert_eq!(Fixed::from_int(0).sqrt().raw, 0);
    assert_eq!(Fixed::from_int(-4).sqrt().raw, 0);
    let r = Fixed::from_int(2).sqrt().raw as i128;
    let n = 2 * (ONE_RAW as i128) * (ONE_RAW as i128);
    assert!(r * r <= n && n < (r + 1) * (r + 1));
    assert_eq!(r, 23726566);
}

#[test]
fn fixed_powers_of_halves() {
    assert_eq!(Fixed::from_int(4).pow_halves(3).raw, 8 * ONE_RAW);
    assert_eq!(Fixed::from_int(3).pow_halves(4).raw, 9 * ONE_RAW);
    assert_eq!(Fixed::from_int(7).pow_halves(0).raw, ONE_RAW);
    assert_eq!(Fixed::from_int(0).pow_halves(0).raw, ONE_RAW);
    assert_eq!(Fixed::from_int(0).pow_halves(3).raw, 0);
}

#[test]
fn fixed_comparisons_with_zero() {
    assert!(Fixed::from_int(0).is_zero());
    assert!(!Fixed { raw: 1 }.is_zero());
    assert!(Fixed::from_int(0).is_non_negative());
    assert!(!Fixed { raw: -1 }.is_non_negative());
    assert_eq!(Fixed { raw: -5 }.max_zero().raw, 0);
    assert_eq!(Fixed { raw: 5 }.max_zero().raw, 5);
}

#[test]
fn vectors_add_and_subtract_elementwise() {
    let mut v = vec![fx(1, 1), fx(2, 1), fx(3, 1)];
    add_assign_vec(&mut v, &vec![fx(1, 2), fx(1, 2), fx(1, 2)]);
    assert_eq!(raws(&v), vec![3 * ONE_RAW / 2, 5 * ONE_RAW / 2, 7 * ONE_RAW / 2]);
    sub_assign_vec(&mut v, &vec![fx(1, 1), fx(1, 1), fx(1, 1)]);
    assert_eq!(raws(&v), vec![ONE_RAW / 2, 3 * ONE_RAW / 2, 5 * ONE_RAW / 2]);
}

#[test]
fn vectors_of_unequal_length_stop_at_the_shorter() {
    let mut v = vec![fx(1, 1), fx(2, 1), fx(3, 1)];
    add_assign_vec(&mut v, &vec![fx(1, 1)]);
    assert_eq!(raws(&v), vec![2 * ONE_RAW, 2 * ONE_RAW, 3 * ONE_RAW]);
    let product = mul_vec(&v, &vec![fx(2, 1), fx(2, 1)]);
    assert_eq!(raws(&product), vec![4 * ONE_RAW, 4 * ONE_RAW]);
}

#[test]
fn vectors_multiply() {
    let mut v = vec![fx(1, 1), fx(-2, 1)];
    mul_assign_scalar(&mut v, fx(3, 1));
    assert_eq!(raws(&v), vec![3 * ONE_RAW, -6 * ONE_RAW]);
    mul_assign_vec(&mut v, &vec![fx(1, 2), fx(1, 2)]);
    assert_eq!(raws(&v), vec![3 * ONE_RAW / 2, -3 * ONE_RAW]);
}

#[test]
fn division_puts_the_default_where_the_divisor_is_zero() {
    let mut v = vec![fx(1, 1), fx(2, 1)];
    div_assign_vec(&mut v, &vec![fx(0, 1), fx(4, 1)], fx(7, 1));
    assert_eq!(raws(&v), vec![7 * ONE_RAW, ONE_RAW / 2]);
}

#[test]
fn negative_entries_become_zero() {
    let mut v = vec![fx(-1, 1), fx(0, 1), fx(2, 1)];
    nonneg_assign_vec(&mut v);
    assert_eq!(raws(&v), vec![0, 0, 2 * ONE_RAW]);
}

#[test]
fn filled_repeats_the_value() {
    assert_eq!(raws(&filled(fx(1, 2), 3)), vec![ONE_RAW / 2; 3]);
    assert!(filled(fx(1, 2), 0).is_empty());
}

#[test]
fn positive_parts_keeps_the_shape() {
    let m = vec![vec![fx(-1, 1), fx(2, 1)], vec![fx(3, 1), fx(-4, 1)]];
    let p = positive_parts(&m);
    assert_eq!(raws(&p[0]), vec![0, 2 * ONE_RAW]);
    assert_eq!(raws(&p[1]), vec![3 * ONE_RAW, 0]);
}

#[test]
fn regret_matching_is_proportional_to_positive_regret() {
    let regrets = vec![vec![fx(1, 1), fx(-1, 1)], vec![fx(3, 1), fx(2, 1)]];
    let s = regret_matching(&regrets, 2);
    assert_eq!(raws(&s[0]), vec![ONE_RAW / 4, 0]);
    assert_eq!(raws(&s[1]), vec![3 * ONE_RAW / 4, ONE_RAW]);
}

#[test]
fn regret_matching_is_uniform_without_positive_regret() {
    let regrets = vec![
        vec![fx(0, 1), fx(-1, 1)],
        vec![fx(-2, 1), fx(-1, 1)],
        vec![fx(0, 1), fx(0, 1)],
    ];
    let s = regret_matching(&regrets, 2);
    for row in &s {
        assert_eq!(raws(row), vec![5592405, 5592405]);
    }
}

#[test]
fn regret_matching_columns_sum_to_one_within_rounding() {
    let regrets = vec![
        vec![fx(1, 3), fx(-1, 1), fx(5, 7)],
        vec![fx(2, 3), fx(-2, 1), fx(1, 9)],
        vec![fx(5, 3), fx(-3, 1), fx(0, 1)],
    ];
    let s = regret_matching(&regrets, 3);
    for h in 0..3 {
        let total: i64 = s.iter().map(|row| row[h].raw).sum();
        assert!(ONE_RAW - 3 < total && total <= ONE_RAW);
        for row in &s {
            assert!(0 <= row[h].raw && row[h].raw <= ONE_RAW);
        }
    }
}

#[test]
fn average_columns_sum_to_one_or_are_zero() {
    let mut m = vec![
        vec![fx(1, 3), fx(0, 1), fx(5, 1)],
        vec![fx(2, 3), fx(0, 1), fx(1, 9)],
        vec![fx(5, 3), fx(0, 1), fx(0, 1)],
    ];
    divide_columns(&mut m, 3, Fixed::from_int(0));
    for h in [0usize, 2] {
        let total: i64 = m.iter().map(|row| row[h].raw).sum();
        assert!(ONE_RAW - 3 < total && total <= ONE_RAW);
    }
    for row in &m {
        assert_eq!(row[1].raw, 0);
    }
}

#[test]
fn average_of_exact_shares() {
    let mut m = vec![vec![fx(9, 2), fx(1, 2)], vec![fx(1, 2), fx(3, 2)]];
    divide_columns(&mut m, 2, Fixed::from_int(0));
    assert_eq!(m[0][0].raw, (9 * ONE_RAW / 2) * ONE_RAW / (5 * ONE_RAW));
    assert_eq!(m[0][1].raw, ONE_RAW / 4);
    assert_eq!(m[1][1].raw, 3 * ONE_RAW / 4);
}

#[test]
fn columns_beyond_the_hands_are_left_alone() {
    let mut m = vec![vec![fx(1, 1), fx(3, 1)], vec![fx(1, 1), fx(5, 1)]];
    divide_columns(&mut m, 1, Fixed::from_int(0));
    assert_eq!(raws(&m[0]), vec![ONE_RAW / 2, 3 * ONE_RAW]);
    assert_eq!(raws(&m[1]), vec![ONE_RAW / 2, 5 * ONE_RAW]);
}

#[test]
fn child_reach_adds_up_to_the_reach_of_the_node() {
    let regrets = vec![
        vec![fx(1, 3), fx(-1, 1)],
        vec![fx(2, 3), fx(-2, 1)],
        vec![fx(5, 3), fx(-3, 1)],
    ];
    let s = regret_matching(&regrets, 2);
    let reach = vec![fx(7, 9), fx(1, 1)];
    let children: Vec<Vec<Fixed>> = s.iter().map(|row| mul_vec(&reach, row)).collect();
    for h in 0..2 {
        let total: i64 = children.iter().map(|c| c[h].raw).sum();
        assert!(total <= reach[h].raw);
        assert!(
            ((reach[h].raw - total) as i128) * (ONE_RAW as i128)
                < 3 * ((ONE_RAW as i128) + (reach[h].raw as i128))
        );
    }
}

#[test]
fn schedule_in_fixed_point() {
    let d0: Discount<Fixed> = discount_schedule(0);
    assert_eq!(d0.alpha.raw, 0);
    assert_eq!(d0.beta.raw, ONE_RAW / 2);
    assert_eq!(d0.gamma.raw, ONE_RAW);
    let d1: Discount<Fixed> = discount_schedule(1);
    assert_eq!(d1.alpha.raw, ONE_RAW / 2);
    assert_eq!(d1.beta.raw, ONE_RAW / 2);
    assert_eq!(d1.gamma.raw, 4 * ONE_RAW);
    let d4: Discount<Fixed> = discount_schedule(4);
    assert_eq!(d4.alpha.raw, 8 * ONE_RAW * ONE_RAW / (9 * ONE_RAW));
    assert_eq!(d4.beta.raw, ONE_RAW / 2);
    assert_eq!(d4.gamma.raw, 25 * ONE_RAW);
}

#[test]
fn rows_are_summed_in_order() {
    let m = vec![vec![fx(1, 1), fx(2, 1)], vec![fx(3, 1), fx(4, 1)]];
    assert_eq!(raws(&sum_rows(&m, 2)), vec![4 * ONE_RAW, 6 * ONE_RAW]);
    let none: Vec<Vec<Fixed>> = Vec::new();
    assert_eq!(raws(&sum_rows(&none, 2)), vec![0, 0]);
}

#[test]
fn expected_value_weighs_the_actions() {
    let values = vec![vec![fx(2, 1), fx(-2, 1)], vec![fx(0, 1), fx(2, 1)]];
    let strategy = vec![vec![fx(1, 2), fx(1, 4)], vec![fx(1, 2), fx(3, 4)]];
    assert_eq!(raws(&expected_value(&values, &strategy, 2)), vec![ONE_RAW, ONE_RAW]);
}

#[test]
fn regrets_are_discounted_by_sign() {
    let mut row = vec![fx(2, 1), fx(0, 1), fx(-2, 1)];
    discount_regrets(&mut row, fx(1, 4), fx(1, 2));
    assert_eq!(raws(&row), vec![ONE_RAW / 2, 0, -ONE_RAW]);
}

#[test]
fn regret_update_follows_the_formula() {
    let mut regret = vec![vec![fx(1, 1), fx(-2, 1)], vec![fx(-1, 1), fx(2, 1)]];
    let discount = Discount { alpha: fx(1, 2), beta: fx(1, 2), gamma: fx(4, 1) };
    let values = vec![vec![fx(2, 1), fx(-2, 1)], vec![fx(0, 1), fx(2, 1)]];
    let node_value = vec![fx(2, 1), fx(2, 1)];
    update_regrets(&mut regret, &discount, &values, &node_value, 2);
    assert_eq!(raws(&regret[0]), vec![ONE_RAW / 2, -5 * ONE_RAW]);
    assert_eq!(raws(&regret[1]), vec![-5 * ONE_RAW / 2, ONE_RAW]);
}

#[test]
fn strategy_update_follows_the_formula() {
    let mut cum = vec![vec![fx(1, 2), fx(1, 2)], vec![fx(1, 2), fx(1, 2)]];
    let strategy = vec![vec![fx(1, 1), fx(0, 1)], vec![fx(0, 1), fx(1, 1)]];
    update_strategy(&mut cum, strategy, fx(4, 1), &vec![fx(1, 1), fx(1, 2)], 2);
    assert_eq!(raws(&cum[0]), vec![9 * ONE_RAW / 2, ONE_RAW / 2]);
    assert_eq!(raws(&cum[1]), vec![ONE_RAW / 2, 5 * ONE_RAW / 2]);
}

#[test]
fn accumulated_strategy_never_shrinks() {
    let before = vec![vec![fx(1, 3), fx(0, 1)], vec![fx(7, 5), fx(2, 1)]];
    let mut cum = vec![vec![fx(1, 3), fx(0, 1)], vec![fx(7, 5), fx(2, 1)]];
    let strategy = vec![vec![fx(1, 3), fx(0, 1)], vec![fx(2, 3), fx(1, 1)]];
    update_strategy(&mut cum, strategy, fx(9, 1), &vec![fx(1, 7), fx(0, 1)], 2);
    for a in 0..2 {
        for h in 0..2 {
            assert!(cum[a][h].raw >= before[a][h].raw);
        }
    }
    assert_eq!(cum[0][1].raw, before[0][1].raw);
    assert!(cum[0][0].raw > before[0][0].raw);
}

#[test]
fn negative_regrets_are_halved_in_every_iteration() {
    for t in [0i32, 1, 2, 17, 1000, i32::MAX] {
        let d: Discount<Fixed> = discount_schedule(t);
        assert_eq!(d.beta.raw, ONE_RAW / 2);
    }
}
