//! The most commonly used items, for a single import.

pub use crate::chain::Chain;
pub use crate::chain::chain;
pub use crate::chain::chain_async;
pub use crate::collection::Collection;
pub use crate::collection::iteration::each;
pub use crate::collection::iteration::filter;
pub use crate::collection::iteration::for_each;
pub use crate::collection::iteration::for_each_right;
pub use crate::collection::iteration::reduce;
pub use crate::collection::iteration::reduce_right;
pub use crate::collection::operation::sample;
pub use crate::collection::operation::sample_size;
pub use crate::collection::operation::shuffle;
pub use crate::collection::operation::size;
pub use crate::collection::query::count_by;
pub use crate::collection::query::every;
pub use crate::collection::query::find;
pub use crate::collection::query::find_last;
pub use crate::collection::query::includes;
pub use crate::collection::query::partition;
pub use crate::collection::query::some;
pub use crate::collection::transform::group_by;
pub use crate::collection::transform::invoke;
pub use crate::collection::transform::key_by;
pub use crate::collection::transform::order_by;
pub use crate::collection::transform::sort_by;
pub use crate::extensions::parallel::filter_parallel;
pub use crate::extensions::parallel::map_parallel;
pub use crate::extensions::parallel::reduce_parallel;
pub use crate::utils::error::LodashError;
