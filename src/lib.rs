//! Gate-bootstrapped homomorphic encryption of bits over the torus.
//!
//! - `torus`: 32-bit fixed-point torus elements, vectors and negacyclic
//!   polynomials.
//! - `tlwe`: bit encryption, its phase and decryption.
//! - `trlwe`: ring encryption of one bit per coefficient.
//! - `trgsw`: gadget decomposition, the external product and CMUX.
//! - `blind_rotate`: the functional bootstrap.
//! - `gate`: sample extraction, key switching and homomorphic NAND.
//! - `sampling`: the uniform randomness that key generation and encryption draw.
pub mod blind_rotate;
pub mod gate;
pub mod sampling;
pub mod tlwe;
pub mod trgsw;
pub mod trlwe;
pub mod torus;
