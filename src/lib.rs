pub mod cli;
pub mod crawler;
pub mod dispatch;
pub mod html;
pub mod model;
pub mod text;
pub mod twir_crawler;
pub mod cache;
