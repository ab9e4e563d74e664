pub mod bigl2;
