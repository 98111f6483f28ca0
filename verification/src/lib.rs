pub mod stepper;
pub mod substrate;
pub mod text;
pub mod bff;
pub mod bits;
pub mod listing;
pub mod echo;
pub mod metrics;
pub mod qop;
pub mod rig;
pub mod skim;
pub mod subleq;
pub mod word;
pub mod edsac;
pub mod ias;
pub mod pdp1;
pub mod ssem;
pub mod z3;
pub mod edvac;
pub mod forth;
pub mod random;
pub mod soup;
pub mod grid;
pub mod epoch;
pub mod soup2d;
pub mod grid_arg;
pub mod uxn;
pub mod mos6502;
pub mod surface;
pub mod mesh;
pub mod live;
pub mod obj;
