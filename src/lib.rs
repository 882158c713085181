//! A daily nutrition estimate from body weight and activity level: energy,
//! protein, fat, carbohydrate and water by fixed linear rules, with short
//! advice chosen by activity thresholds, and the input handling of the form
//! that collects the two values.
pub mod activity;
pub mod decimal;
pub mod form;
pub mod nutrition;
pub mod tips;
