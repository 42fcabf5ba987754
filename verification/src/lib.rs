pub mod app;
pub mod render;
pub mod text;
pub mod ipc;
pub mod keyed;
pub mod components;
pub mod font;
pub mod catalog;
pub mod component_dsl;
pub mod libkagami;
pub mod pipeline;
pub mod theme;
pub mod view;
