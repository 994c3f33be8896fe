//! Values kept once per CPU.

use vstd::prelude::*;

verus! {

/// A value kept once per CPU, read by the CPU's ID.
pub struct CPULocal<T> {
    /// The values, by CPU ID.
    pub values: Vec<T>,
}

impl<T> CPULocal<T> {
    /// Creates a CPU local value from the values of all CPUs, by CPU ID.
    pub fn new(values: Vec<T>) -> (r: CPULocal<T>)
        ensures
            r.values@ == values@,
    {
        CPULocal { values }
    }

    /// Returns the value of the CPU with the given ID.
    pub fn get(&self, cpu_id: usize) -> (r: &T)
        requires
            cpu_id < self.values@.len(),
        ensures
            *r == self.values@[cpu_id as int],
    {
        &self.values[cpu_id]
    }
}

/// A value kept once per CPU that each CPU can replace.
pub struct CPULocalMut<T> {
    /// The values, by CPU ID.
    pub values: Vec<T>,
}

impl<T> CPULocalMut<T> {
    /// Creates a CPU local value from the values of all CPUs, by CPU ID.
    pub fn new(values: Vec<T>) -> (r: CPULocalMut<T>)
        ensures
            r.values@ == values@,
    {
        CPULocalMut { values }
    }

    /// Returns the value of the CPU with the given ID.
    pub fn get(&self, cpu_id: usize) -> (r: &T)
        requires
            cpu_id < self.values@.len(),
        ensures
            *r == self.values@[cpu_id as int],
    {
        &self.values[cpu_id]
    }

    /// Replaces the value of the CPU with the given ID; the other CPUs keep
    /// theirs.
    pub fn set(&mut self, cpu_id: usize, value: T)
        requires
            cpu_id < old(self).values@.len(),
        ensures
            final(self).values@ == old(self).values@.update(cpu_id as int, value),
    {
        self.values.set(cpu_id, value);
    }
}

} // verus!
