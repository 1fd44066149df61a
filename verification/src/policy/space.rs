//! What all spaces have in common.

use crate::policy::immix::ImmixModes;
use crate::util::address::Address;
use vstd::prelude::*;

verus! {

/// What a plan hands to a space that it creates.
#[derive(Clone, Copy, Debug)]
pub struct PlanCreateSpaceArgs {
    /// The name of the space.
    pub name: &'static str,
    /// The address at which the memory of the space starts.
    pub start: Address,
    /// The size of the memory of the space in bytes.
    pub extent: usize,
    /// Whether the plan keeps a log bit for each object.
    pub needs_log_bit: bool,
    /// The modes that the space is built in.
    pub modes: ImmixModes,
}

/// The part of a space that does not depend on its policy.
#[derive(Clone, Copy, Debug)]
pub struct CommonSpace {
    /// The name of the space.
    pub name: &'static str,
    /// The address at which the memory of the space starts.
    pub start: Address,
    /// The size of the memory of the space in bytes.
    pub extent: usize,
    /// Whether the plan keeps a log bit for each object.
    pub needs_log_bit: bool,
}

impl CommonSpace {
    /// The common part of a space made from `args`.
    pub fn new(args: PlanCreateSpaceArgs) -> (common: Self)
        ensures
            common.name == args.name,
            common.start == args.start,
            common.extent == args.extent,
            common.needs_log_bit == args.needs_log_bit,
    {
        CommonSpace {
            name: args.name,
            start: args.start,
            extent: args.extent,
            needs_log_bit: args.needs_log_bit,
        }
    }

    /// The name of the space.
    pub fn get_name(&self) -> (name: &'static str)
        ensures
            name == self.name,
    {
        self.name
    }
}

} // verus!
