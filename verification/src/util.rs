//! Small numeric helpers: bounds of number types, unit values and linear scaling.
pub mod bounds;
pub mod num_traits;
pub mod scale;

pub use bounds::{Max, Min};
pub use num_traits::{One, SmallVal, Zero};
pub use scale::{GeoPointScaler, Scaler};
