//! Matrix elements of second-quantized fermionic Hamiltonians by symbolic
//! expansion: expression trees over scalars, symbols, creation and
//! annihilation operators and basis vectors, rewritten pass by pass until they
//! reach a fixed point.
use vstd::prelude::*;

pub mod label;
pub mod state;
pub mod term;
pub mod expand;
pub mod driver;
pub mod laws;
pub mod render;

pub use state::StateChangeResult;
pub use state::StateContainer;
pub use term::Term;
pub use driver::calculate_matrix_element;
pub use driver::normal_form;
pub use driver::prepare_hamiltonian;

verus! {

} // verus!
