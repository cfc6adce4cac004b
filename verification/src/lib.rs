//! Core of a resumable Mandelbrot-set renderer.
//!
//! The library evaluates, pixel by pixel, whether points of a viewport belong
//! to the Mandelbrot set, using 64-bit fixed-point arithmetic with a 60-bit
//! binary scale. A chunked scheduler processes a bounded band of rows per
//! invocation, a border tracer and fast-fill shortcut avoid evaluating most
//! interior pixels, and a vertical-symmetry shortcut mirrors rows across the
//! real axis.

pub mod ctx;
pub mod evaluator;
pub mod grid;
pub mod point;
pub mod scheduler;
pub mod tracer;

pub use ctx::Ctx;
pub use ctx::Symmetry;
pub use ctx::bounds_fit;
pub use ctx::lemma_coordinate_round_trip;
pub use evaluator::Complex;
pub use evaluator::mandelbrot_val_at_point;
pub use grid::near_border;
pub use grid::new_plot;
pub use grid::reset_plot;
pub use grid::set_pixel;
pub use point::PlotPoint;
pub use scheduler::advance_plot;
pub use scheduler::process_plot_cpu;
pub use tracer::TraceDirection;
