//! Hardware telemetry core: sensor discovery helpers, classification of raw
//! sensors into named groups, fixed-capacity rolling time series, and a
//! sampling engine driven by a virtual clock.

pub mod catalog;
pub mod classify;
pub mod color;
pub mod groups;
pub mod items;
pub mod legend;
pub mod num;
pub mod order;
pub mod sampler;
pub mod series;
pub mod text;

pub use catalog::{
    core_index, is_temp_input, label_file_name, parse_reading, sensor_label, sort_freq_sensors, temp_from_text,
    FreqSensor,
};
pub use classify::{classify, classify_folded, Classification};
pub use color::{group_palette, palette, theme_color, tint, Rgba};
pub use groups::{add_gpu_header, build_groups, gpu_sensor_index, group_rank, SensorGroup, TempSensor};
pub use items::{humanize_item_label, item_sort_key, nvme_hint_from_path, sort_group_items, SensorItem};
pub use legend::{display_window, heat_level, Heat};
pub use num::{decimal, parse_int};
pub use sampler::{normalize_temp, Telemetry, TickInput};
pub use series::{Point, RollingSeries};
