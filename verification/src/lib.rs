//! A point-cloud library: spatial samples with optional per-point attributes,
//! stored in either a row-oriented or a column-oriented layout, and mapped
//! between reference frames by 4x4 homogeneous transforms.
//!
//! Coordinates and numeric attributes are 64-bit signed integers: fixed
//! integer units of the caller's choosing (as in scaled-integer point formats
//! such as LAS). This keeps every operation exact, so the transform algebra
//! obeys its laws precisely and each container operation has a complete
//! contract.
use vstd::prelude::*;

mod compact_point_cloud;
mod errors;
mod numeric;
mod point;
mod point_cloud;
mod simple_point_cloud;
mod transform;

pub use errors::PclError;
pub use numeric::{is_isqrt, isqrt_u128, sabs, trunc_div};
pub use point::{attrs_view, clone_string, compare_str, field_names, fixed_field_names, get_extra, has_key, key_index, names_of, set_extra, strings_view, unique_keys, Color, Point, PointView};
pub use compact_point_cloud::{col_names, cols_empty, cols_extras_unreserved, grown_capacity, is_reserved_name, lemma_color_backfill, lemma_cols_push_all_synced, lemma_cols_push_wf, color_a, color_b, color_g, color_r, cols_model, cols_names, cols_push, cols_push_all, cols_set, cols_synced, cols_transform, cols_with_extra, extras_index, extras_with, extra_val, extras_push, extras_set, filled, new_extras, opt_push, opt_set_existing, opt_view, ColumnsView, CompactPointCloud};
pub use point_cloud::{cloud_fits, points_model, transform_point, transformed_model, transformed_view, PointCloud};
pub use simple_point_cloud::{lemma_row_round_trip, models_wf, row_names, SimplePointCloud};
pub use transform::{apply_entry, apply_fits, apply_spec, lemma_compose_assoc, lemma_compose_identity, lemma_identity_apply, lemma_mat_mul_assoc, lemma_mat_mul_identity, mat_identity, mat_mul_spec, mat_wf, mm_abs_bound, mm_entry, mm_fits, nested_view, rows_view, z_or_zero, Transform};

verus! {

/// A greeting, for probing that the library is linked and callable.
pub fn hello_from_core() -> (r: String)
    ensures
        r@ == "Hello from pcl_rustic core!"@,
{
    "Hello from pcl_rustic core!".to_string()
}

} // verus!
