//! Driver core for an SPI-attached ILI9341 colour panel and a rotary encoder
//! with push button: the command/data transport, the panel driver with its
//! dirty-rectangle flush, and the quadrature decoder.
pub mod client;
pub mod framebuffer;
pub mod ili9341;
pub mod position;
pub mod rotary_encoder;
pub mod simulated;
pub mod spi;
pub mod wire;
