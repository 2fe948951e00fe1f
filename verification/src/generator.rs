use vstd::prelude::*;

verus! {

/// Configuration for the stimulus generators.
pub trait GeneratorConfig: Clone {

}

/// A deterministic, finite, restartable sequence of stimulus values: every
/// value is a pure function of its sample index.
pub trait Generator: Sized {
    /// The configuration type for this generator.
    type Config: GeneratorConfig;

    /// The value produced for one sample.
    type Output;

    /// The value at the given sample index, or `None` past the end.
    fn generate(&self, sample: usize) -> Option<Self::Output>;

    /// How many samples this generator produces.
    fn num_samples(&self) -> usize;

    /// A cursor over all samples, starting at index zero.
    fn iter(&self) -> (r: GeneratorIterator<'_, Self>)
        ensures
            r.current == 0,
    {
        GeneratorIterator { generator: self, current: 0 }
    }
}

/// A cursor that hands out a generator's values in sample order.
pub struct GeneratorIterator<'a, G: Generator> {
    pub generator: &'a G,
    pub current: usize,
}

impl<'a, G: Generator> GeneratorIterator<'a, G> {
    /// The value at the cursor, advancing it by one sample.
    pub fn next(&mut self) -> (r: Option<G::Output>)
        requires
            old(self).current < usize::MAX,
        ensures
            final(self).current == old(self).current + 1,
            final(self).generator == old(self).generator,
    {
        let sample = self.current;
        self.current = self.current + 1;
        self.generator.generate(sample)
    }

    /// Lower and upper bound on the number of values, both the generator's
    /// sample count.
    pub fn size_hint(&self) -> (r: (usize, Option<usize>)) {
        (self.generator.num_samples(), Some(self.generator.num_samples()))
    }
}

} // verus!
