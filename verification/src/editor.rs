//! Single-writer line editor: a bounded buffer fed byte-by-byte from the
//! receive path. Terminators hand the finished line back, editing keys
//! erase, other non-printable bytes are ignored, printable bytes are stored
//! and echoed while there is room and silently dropped once the buffer is
//! full, so the editor never blocks.

use vstd::prelude::*;

use crate::byte_str::ByteBuf;

verus! {

/// The visual erase echo: one backspace-space-backspace triplet per
/// removed byte.
pub open spec fn spec_erase_triplets(n: nat) -> Seq<u8>
    decreases n,
{
    if n == 0 {
        Seq::empty()
    } else {
        seq![8u8, 32u8, 8u8] + spec_erase_triplets((n - 1) as nat)
    }
}

proof fn lemma_triplets_snoc(n: nat)
    ensures
        spec_erase_triplets(n + 1) == spec_erase_triplets(n) + seq![8u8, 32u8, 8u8],
    decreases n,
{
    if n == 0 {
        assert(spec_erase_triplets(1) =~= spec_erase_triplets(0) + seq![8u8, 32u8, 8u8]);
    } else {
        lemma_triplets_snoc((n - 1) as nat);
        assert(spec_erase_triplets(n + 1) =~= spec_erase_triplets(n) + seq![8u8, 32u8, 8u8]);
    }
}

/// A line terminator byte.
pub open spec fn is_terminator(b: u8) -> bool {
    b == 10 || b == 13
}

/// A byte that is stored and echoed: the printable ASCII range.
pub open spec fn is_printable(b: u8) -> bool {
    32 <= b <= 126
}

/// What one editor step produced: the bytes to echo back, and the finished
/// line when the byte was a terminator.
pub struct FeedOut {
    pub echo: Vec<u8>,
    pub line: Option<Vec<u8>>,
}

/// The line editor state: the bytes of the line being assembled.
pub struct LineEditor {
    buf: ByteBuf,
}

impl View for LineEditor {
    type V = Seq<u8>;

    closed spec fn view(&self) -> Seq<u8> {
        self.buf@
    }
}

impl LineEditor {
    /// Maximum line length; further printable input is dropped.
    pub closed spec fn capacity(&self) -> nat {
        self.buf.capacity()
    }

    /// The line never exceeds the capacity.
    pub open spec fn wf(&self) -> bool {
        self@.len() <= self.capacity()
    }

    /// An empty editor for lines of at most `cap` bytes.
    pub fn new(cap: usize) -> (r: LineEditor)
        ensures
            r@ == Seq::<u8>::empty(),
            r.capacity() == cap,
            r.wf(),
    {
        LineEditor { buf: ByteBuf::new(cap) }
    }

    /// Feed one received byte through the editor state machine.
    #[verifier::loop_isolation(false)]
    pub fn feed(&mut self, b: u8) -> (r: FeedOut)
        requires
            old(self).wf(),
        ensures
            final(self).wf(),
            final(self).capacity() == old(self).capacity(),
            is_terminator(b) ==> {
                &&& r.line matches Some(l) && l@ == old(self)@
                &&& final(self)@ == Seq::<u8>::empty()
                &&& r.echo@ == Seq::<u8>::empty()
            },
            b == 21 ==> {
                &&& r.line is None
                &&& final(self)@ == Seq::<u8>::empty()
                &&& r.echo@ == spec_erase_triplets(old(self)@.len())
            },
            b == 8 || b == 127 ==> {
                &&& r.line is None
                &&& old(self)@.len() > 0 ==> final(self)@ == old(self)@.drop_last()
                &&& old(self)@.len() == 0 ==> final(self)@ == old(self)@
                &&& r.echo@ == spec_erase_triplets(1)
            },
            !is_terminator(b) && b != 21 && b != 8 && b != 127 && !is_printable(b) ==> {
                &&& r.line is None
                &&& final(self)@ == old(self)@
                &&& r.echo@ == Seq::<u8>::empty()
            },
            is_printable(b) ==> {
                &&& r.line is None
                &&& old(self)@.len() < old(self).capacity() ==> final(self)@ == old(self)@.push(b)
                    && r.echo@ == seq![b]
                &&& old(self)@.len() >= old(self).capacity() ==> final(self)@ == old(self)@
                    && r.echo@ == Seq::<u8>::empty()
            },
    {
        if b == 10 || b == 13 {
            let l = vstd::slice::slice_to_vec(self.buf.as_slice());
            self.buf.clear();
            return FeedOut { echo: Vec::new(), line: Some(l) };
        }
        if b == 21 {
            // kill-line (ctrl-U): erase everything, one triplet per byte
            let count = self.buf.len();
            let mut echo: Vec<u8> = Vec::new();
            let mut k: usize = 0;
            while k < count
                invariant
                    k <= count,
                    echo@ == spec_erase_triplets(k as nat),
                decreases count - k,
            {
                echo.push(8);
                echo.push(32);
                echo.push(8);
                proof {
                    lemma_triplets_snoc(k as nat);
                    assert(echo@ =~= spec_erase_triplets((k + 1) as nat));
                }
                k = k + 1;
            }
            self.buf.clear();
            return FeedOut { echo, line: None };
        }
        if b == 8 || b == 127 {
            // backspace / delete: erase one byte if present, echo regardless
            let _ = self.buf.pop();
            let mut echo: Vec<u8> = Vec::new();
            echo.push(8);
            echo.push(32);
            echo.push(8);
            proof {
                lemma_triplets_snoc(0);
                assert(spec_erase_triplets(0) + seq![8u8, 32u8, 8u8] =~= seq![8u8, 32u8, 8u8]);
                assert(echo@ =~= seq![8u8, 32u8, 8u8]);
            }
            return FeedOut { echo, line: None };
        }
        if !(32 <= b && b <= 126) {
            // other non-printable bytes: ignored, no echo
            return FeedOut { echo: Vec::new(), line: None };
        }
        let stored = self.buf.push(b);
        let mut echo: Vec<u8> = Vec::new();
        if stored {
            echo.push(b);
            proof {
                assert(echo@ =~= seq![b]);
            }
        }
        FeedOut { echo, line: None }
    }
}

} // verus!
