//! Arithmetic on samples: every operation gives the pattern nearest to the
//! exact result, a tie going to the pattern with an even fraction.
pub mod steps;
pub mod rounding;
pub mod product;
pub mod sum;
pub mod quotient;
pub mod root;
pub mod whole;
pub mod order;

pub use self::order::{
    is_level, lemma_level_up_to_one, at_least, greater, greater_of, is_at_least, is_below, lesser, lesser_of, place,
};
pub use self::product::{
    is_product, lemma_product_exists, lemma_product_not_larger, lemma_product_not_zero,
    lemma_product_smaller, lemma_product_commutes, lemma_product_of_levels, lemma_product_unique,
    lemma_weighted_up_to_weight, lemma_unity_keeps_sample,
    lemma_zero_silences_sample, lemma_zero_times, multiply, product,
};
pub use self::quotient::{lemma_quotient_of_levels, divide, is_quotient, lemma_quotient_unique, lemma_zero_by, quotient};
pub use self::root::{
    is_nearest_root, is_root, lemma_root_is_level, lemma_root_of_zero, lemma_root_unique, nearer_root, root,
    square_root,
};
pub use self::steps::{
    INFINITY, QUIET_NAN, distance, is_infinite, is_nearest, is_zero, lemma_nearest_exact_step,
    lemma_nearest_exists, lemma_nearest_unique, lemma_step_magnitude, lemma_unsigned, unsigned,
};
pub use self::sum::{
    is_finite_sum, is_sum, lemma_sum_of_levels, lemma_sum_unique, lemma_sum_up_to, lemma_sum_with_zero, minus, negate, negated, plus,
    signed_magnitude, sum, with_sign,
};
pub use self::whole::{from_whole, whole_number, whole_part, whole_part_up_to};
