//! Non-interactive zero-knowledge proofs of arithmetic relations between
//! Pedersen commitments over the Ristretto group: addition, subtraction,
//! multiplication, division, equality, and non-negativity through a bit
//! decomposition. Challenges come from the Fiat–Shamir transform.

pub mod addition;
pub mod comparison;
pub mod division;
pub mod equality;
pub mod group;
pub mod modular;
pub mod multiplication;
pub mod subtraction;
pub mod sums;
pub mod transcript;

pub use addition::{
    Addition, AdditionCommitment, AdditionProof, AdditionProofWithPublicParams, AdditionSecret,
};
pub use comparison::{
    decompose_number, pow_scalar, Comparison, ComparisonCommitment, ComparisonProof,
    ComparisonProofWithPublicParams, ComparisonSecret,
};
pub use division::{
    Division, DivisionCommitment, DivisionProof, DivisionSecret, DivisionWithPublicParams,
    DivisionWitness,
};
pub use equality::{
    Equality, EqualityCommitment, EqualityProof, EqualitySecret, EqualityWithPublicParams,
};
pub use group::{Point, Scalar};
pub use multiplication::{
    Multiplication, MultiplicationCommitment, MultiplicationProof, MultiplicationSecret,
    MultiplicationWithPublicParams, MultiplicationWitness,
};
pub use subtraction::{
    Substraction, SubstractionCommitment, SubstractionProof, SubstractionSecret,
    SubstractionWithPublicParams,
};
