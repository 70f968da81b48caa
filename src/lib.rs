// Drawing a digit on a small bitmap and preparing it for a classifier:
// stroke rasterization, the canvas and its queued intents, and the
// canvas-to-model pipeline.
pub mod canvas;
pub mod pipeline;
pub mod raster;
pub mod stroke;
