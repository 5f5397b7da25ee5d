pub mod calendar;
pub mod context;
pub mod engine;
pub mod extractor;
pub mod jsonio;
pub mod location_history;
pub mod pipeline;
pub mod render;
pub mod template;
pub mod text;
