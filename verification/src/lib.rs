//! A compiler backend that lowers a small three-address SSA program to the
//! eight-instruction cell-tape language, with an interpreter for that
//! language and the proofs that tie the two together.
//!
//! The library falls into four parts.
//!
//! * The compiler: [`ir`] is the program representation, [`normalize`] makes
//!   every call the last instruction of its block, [`layout`] lays the frames
//!   out on the tape, and [`emit`] writes the dispatch loop and lowers every
//!   instruction. [`tape`] is the closed library of templates, [`builder`] a
//!   function builder on top of it, and [`text`] what all of them write text
//!   with.
//! * The interpreter: [`interp`] reads program text as operations and
//!   runs them; [`harness`] judges such runs for the test harness.
//! * What programs mean: [`semantics`] reads a program by its loops and shows
//!   that the interpreter's jumps do the same; [`fusion`] shows that fusing
//!   operations changes nothing; [`reasoning`], [`effects`], [`trains`],
//!   [`delivery`] and [`table`] work out what every template does, and
//!   [`lowering`] and [`less_than`] what the text written for every
//!   instruction does.
//! * What compiled programs keep to: [`discipline`] is a walk through a
//!   program that follows the head from frame to frame, [`literals`] and
//!   [`balance`] show that every compiled program can be walked, and [`laws`]
//!   states what follows.
pub mod text;
pub mod interp;
pub mod tape;
pub mod ir;
pub mod normalize;
pub mod layout;
pub mod emit;
pub mod builder;
pub mod harness;
pub mod semantics;
pub mod fusion;
pub mod reasoning;
pub mod effects;
pub mod trains;
pub mod delivery;
pub mod table;
pub mod discipline;
pub mod literals;
pub mod balance;
pub mod lowering;
pub mod less_than;
pub mod laws;
