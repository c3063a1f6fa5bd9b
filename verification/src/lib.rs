//! Three small tools on one verified core: a depth-bounded image crawler
//! (`spider`), an image viewer's pixel and text routines (`scorpion`) and a
//! one-time-password generator (`otp`).

pub mod decimal;
pub mod formats;
pub mod otp;
pub mod scorpion;
pub mod seqs;
pub mod spider;
pub mod text;
