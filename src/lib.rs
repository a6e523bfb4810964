pub mod ball;
pub mod histogram;
pub mod quincunx;
