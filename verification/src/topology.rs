//! Addresses of neurons inside a layered network genome, and the kinds of
//! structural change such a genome can undergo.

use crate::genome::GenerateRandom;
use crate::random::random_index;
use rand::rngs::ThreadRng;
use vstd::prelude::*;

verus! {

/// Identifies one neuron of a network by its layer and its position in that layer.
#[derive(Clone, Copy, PartialEq, Eq, Structural, Debug)]
pub enum NeuronPointer {
    /// A neuron of the input layer.
    Input(usize),
    /// A neuron of the hidden layer.
    Hidden(usize),
    /// A neuron of the output layer.
    Output(usize),
}

impl NeuronPointer {
    /// Whether this pointer addresses the input layer.
    pub fn is_input(&self) -> (b: bool)
        ensures
            b == (*self is Input),
    {
        match self {
            Self::Input(_) => true,
            _ => false,
        }
    }

    /// Whether this pointer addresses the hidden layer.
    pub fn is_hidden(&self) -> (b: bool)
        ensures
            b == (*self is Hidden),
    {
        match self {
            Self::Hidden(_) => true,
            _ => false,
        }
    }

    /// Whether this pointer addresses the output layer.
    pub fn is_output(&self) -> (b: bool)
        ensures
            b == (*self is Output),
    {
        match self {
            Self::Output(_) => true,
            _ => false,
        }
    }
}

/// The structural changes a network genome can undergo in one mutation.
#[derive(Clone, Copy, PartialEq, Eq, Structural, Debug)]
pub enum NetworkWideMutation {
    /// Adds a connection between two neurons.
    AddConnection,
    /// Removes a connection between two neurons.
    RemoveConnection,
    /// Splits an existing connection by placing a neuron in the middle.
    AddNeuron,
    /// Removes a neuron and the connections surrounding it.
    RemoveNeuron,
}

/// The mutation that stands for a draw: the first three kinds for the draws
/// zero, one and two, and the removal of a neuron for every other draw.
pub open spec fn mutation_of(draw: usize) -> NetworkWideMutation {
    if draw == 0 {
        NetworkWideMutation::AddConnection
    } else if draw == 1 {
        NetworkWideMutation::RemoveConnection
    } else if draw == 2 {
        NetworkWideMutation::AddNeuron
    } else {
        NetworkWideMutation::RemoveNeuron
    }
}

impl NetworkWideMutation {
    /// The mutation that stands for a draw.
    pub fn from_draw(draw: usize) -> (mutation: Self)
        ensures
            mutation == mutation_of(draw),
    {
        match draw {
            0 => Self::AddConnection,
            1 => Self::RemoveConnection,
            2 => Self::AddNeuron,
            _ => Self::RemoveNeuron,
        }
    }
}

impl GenerateRandom for NetworkWideMutation {
    /// Only draws below three are made, so a neuron's removal is never generated.
    open spec fn may_generate(mutation: &Self) -> bool {
        exists|draw: usize| draw < 3 && *mutation == #[trigger] mutation_of(draw)
    }

    fn gen_random(rng: &mut ThreadRng) -> (mutation: Self) {
        let draw = random_index(rng, 0, 3);
        Self::from_draw(draw)
    }
}

/// No mutation that is generated removes a neuron.
pub proof fn lemma_generated_mutation_keeps_neurons(mutation: NetworkWideMutation)
    requires
        NetworkWideMutation::may_generate(&mutation),
    ensures
        !(mutation is RemoveNeuron),
{
}

} // verus!
