use vstd::prelude::*;

use crate::error::CpuError;

verus! {

/// Number of words in memory.
pub const MEMORY_WORDS: usize = 0x10000;

/// Memory as a mathematical value: the cells, and how many of them, counted from
/// address 0, hold the loaded program.
pub struct MemoryView {
    pub cells: Seq<u16>,
    pub loaded: nat,
}

impl MemoryView {
    /// All cells zero, nothing loaded.
    pub open spec fn empty() -> MemoryView {
        MemoryView { cells: Seq::new(0x10000, |i: int| 0u16), loaded: 0 }
    }

    pub open spec fn wf(self) -> bool {
        &&& self.cells.len() == 0x10000
        &&& self.loaded <= 0x10000
    }

    /// Whether `pos` lies inside the loaded prefix.
    pub open spec fn is_readable(self, pos: int) -> bool {
        pos < self.loaded
    }

    /// Whether `n` more words fit after the loaded prefix.
    pub open spec fn fits(self, n: nat) -> bool {
        self.loaded + n <= 0x10000
    }

    /// `words` written just after the loaded prefix, which grows by their number.
    pub open spec fn load(self, words: Seq<u16>) -> MemoryView {
        MemoryView {
            cells: Seq::new(
                self.cells.len(),
                |i: int|
                    if self.loaded <= i < self.loaded + words.len() {
                        words[i - self.loaded]
                    } else {
                        self.cells[i]
                    },
            ),
            loaded: self.loaded + words.len(),
        }
    }

    /// One cell replaced; the loaded prefix stays as it is.
    pub open spec fn set(self, pos: int, word: u16) -> MemoryView {
        MemoryView { cells: self.cells.update(pos, word), loaded: self.loaded }
    }
}

/// After a program of `L <= 65,536` words is loaded into fresh memory, an address
/// is readable exactly when it is below `L`, and the first `L` cells hold the
/// program.
pub proof fn lemma_load_marks_prefix(words: Seq<u16>, i: int)
    requires
        words.len() <= 0x10000,
    ensures
        MemoryView::empty().fits(words.len()),
        MemoryView::empty().load(words).wf(),
        0 <= i ==> (MemoryView::empty().load(words).is_readable(i) <==> i < words.len()),
        0 <= i < words.len() ==> MemoryView::empty().load(words).cells[i] == words[i],
{
}

/// The 65,536 words of DCPU-16 memory and the length of the loaded prefix.
pub struct Memory {
    memory: [u16; 0x10000],
    loaded: usize,
}

impl View for Memory {
    type V = MemoryView;

    closed spec fn view(&self) -> MemoryView {
        MemoryView { cells: self.memory@, loaded: self.loaded as nat }
    }
}

impl Default for Memory {
    fn default() -> (r: Memory)
        ensures
            r@ == MemoryView::empty(),
    {
        Memory::new()
    }
}

impl Memory {
    #[verifier::type_invariant]
    spec fn inv(self) -> bool {
        self.loaded <= 0x10000
    }

    /// All cells zero, nothing loaded.
    pub fn new() -> (r: Memory)
        ensures
            r@ == MemoryView::empty(),
    {
        let m = Memory { memory: [0u16; 0x10000], loaded: 0 };
        assert(m.memory@ =~= MemoryView::empty().cells);
        m
    }

    /// Appends `words` after the loaded prefix; fails, changing nothing, when they
    /// do not fit.
    pub fn load(&mut self, words: &[u16]) -> (r: Result<(), CpuError>)
        ensures
            old(self)@.fits(words@.len()) ==> r is Ok && final(self)@ == old(self)@.load(words@),
            !old(self)@.fits(words@.len()) ==> r == Err::<(), CpuError>(CpuError::ProgramTooLarge)
                && final(self)@ == old(self)@,
    {
        proof {
            use_type_invariant(&*self);
        }
        let len = words.len();
        if len > MEMORY_WORDS - self.loaded {
            return Err(CpuError::ProgramTooLarge);
        }
        let start = self.loaded;
        let ghost before = self.memory@;
        for i in 0..len
            invariant
                len == words@.len(),
                start + len <= 0x10000,
                self.loaded == start,
                self.memory@.len() == 0x10000,
                before.len() == 0x10000,
                forall|j: int|
                    0 <= j < 0x10000 ==> #[trigger] self.memory@[j] == if start <= j < start + i {
                        words@[j - start]
                    } else {
                        before[j]
                    },
        {
            self.memory[start + i] = words[i];
        }
        self.loaded = start + len;
        assert(self.memory@ =~= old(self)@.load(words@).cells);
        Ok(())
    }

    /// The word at `pos`.
    pub fn get(&self, pos: usize) -> (r: u16)
        requires
            pos < 0x10000,
        ensures
            r == self@.cells[pos as int],
    {
        self.memory[pos]
    }

    /// Writes `word` at `pos`; the loaded prefix does not grow.
    pub fn set(&mut self, pos: usize, word: u16)
        requires
            pos < 0x10000,
        ensures
            final(self)@ == old(self)@.set(pos as int, word),
    {
        proof {
            use_type_invariant(&*self);
        }
        self.memory[pos] = word;
    }

    /// Whether `pos` lies inside the loaded prefix.
    pub fn is_readable(&self, pos: usize) -> (r: bool)
        ensures
            r == self@.is_readable(pos as int),
    {
        pos < self.loaded
    }
}

} // verus!
