//! Numbering the lines of a stream and deciding, line by line, what to
//! write or whether to stop.
use crate::line::{fields_of, line_is_sorted, sort_line, sorted_line};
use crate::options::Options;
use vstd::prelude::*;

verus! {

/// What to do after one line.
#[derive(Debug, PartialEq, Eq)]
pub enum Step {
    /// Write this text followed by a line break.
    Write(String),
    /// The line is in order: write nothing and go on.
    Pass,
    /// The line with this 1-based number is out of order: stop the run.
    Fail(usize),
}

/// The fields of `line` are in the order that `opts` asks for.
pub open spec fn line_sorted(opts: Options, line: Seq<char>) -> bool {
    opts.spec_comparator().sorted(fields_of(opts, line))
}

/// Every line of `lines` is in order.
pub open spec fn all_sorted(opts: Options, lines: Seq<Seq<char>>) -> bool {
    forall|i: int| 0 <= i < lines.len() ==> #[trigger] line_sorted(opts, lines[i])
}

/// The state of one run over a stream of lines.
pub struct Driver {
    opts: Options,
    line_number: usize,
    halted: bool,
    seen: Ghost<Seq<Seq<char>>>,
}

impl Driver {
    /// The settings of the run.
    pub closed spec fn options(self) -> Options {
        self.opts
    }

    /// The lines handed in so far, in order.
    pub closed spec fn history(self) -> Seq<Seq<char>> {
        self.seen@
    }

    /// A check failed; the run is over.
    pub closed spec fn is_halted(self) -> bool {
        self.halted
    }

    pub closed spec fn wf(self) -> bool {
        &&& self.line_number as int == self.seen@.len()
        &&& self.halted ==> self.opts.check && self.seen@.len() > 0
        &&& self.opts.check && !self.halted ==> all_sorted(self.opts, self.seen@)
        &&& self.halted ==> all_sorted(self.opts, self.seen@.drop_last())
            && !line_sorted(self.opts, self.seen@.last())
    }

    pub fn new(opts: Options) -> (r: Driver)
        ensures
            r.wf(),
            r.options() == opts,
            r.history() == Seq::<Seq<char>>::empty(),
            !r.is_halted(),
    {
        Driver { opts, line_number: 0, halted: false, seen: Ghost(Seq::empty()) }
    }

    /// The number of lines handed in so far.
    pub fn lines_read(&self) -> (r: usize)
        requires
            self.wf(),
        ensures
            r == self.history().len(),
    {
        self.line_number
    }

    /// Handles the next line of the stream. In check mode a line out of
    /// order gives its 1-based number, every line before it being in
    /// order; otherwise the line with its fields sorted is to be written.
    pub fn feed(&mut self, line: &str) -> (r: Step)
        requires
            old(self).wf(),
            !old(self).is_halted(),
            old(self).history().len() < usize::MAX,
        ensures
            final(self).wf(),
            final(self).options() == old(self).options(),
            final(self).history() == old(self).history().push(line@),
            old(self).options().check ==> {
                &&& r is Pass <==> line_sorted(old(self).options(), line@)
                &&& r is Pass || r == Step::Fail(final(self).history().len() as usize)
                &&& final(self).is_halted() <==> r is Fail
            },
            old(self).options().check && r is Fail ==> {
                &&& all_sorted(old(self).options(), old(self).history())
                &&& !line_sorted(old(self).options(), line@)
            },
            !old(self).options().check ==> {
                &&& !final(self).is_halted()
                &&& r matches Step::Write(s) && sorted_line(old(self).options(), line@, s@)
            },
    {
        self.line_number = self.line_number + 1;
        let ghost before = self.seen@;
        self.seen = Ghost(self.seen@.push(line@));
        assert(self.seen@.drop_last() =~= before);
        if self.opts.check {
            if line_is_sorted(&self.opts, line) {
                Step::Pass
            } else {
                self.halted = true;
                Step::Fail(self.line_number)
            }
        } else {
            Step::Write(sort_line(&self.opts, line))
        }
    }
}

/// The text of each line.
pub open spec fn lines_view(lines: Seq<String>) -> Seq<Seq<char>> {
    lines.map_values(|l: String| l@)
}

/// Checks `lines` in order, as a run in check mode does: `None` when every
/// line is in order, else the 1-based number of the first line that is not.
pub fn check_lines(opts: &Options, lines: &Vec<String>) -> (r: Option<usize>)
    ensures
        r is None <==> all_sorted(*opts, lines_view(lines@)),
        r matches Some(n) ==> {
            &&& 1 <= n <= lines.len()
            &&& all_sorted(*opts, lines_view(lines@).take(n - 1))
            &&& !line_sorted(*opts, lines_view(lines@)[n - 1])
        },
{
    let checking = Options::new(
        opts.delim,
        opts.white_space,
        opts.fold_case,
        opts.numeric,
        opts.reverse,
        true,
    );
    assert forall|l: Seq<char>| #[trigger] line_sorted(checking, l) == line_sorted(*opts, l) by {
        assert(fields_of(checking, l) == fields_of(*opts, l));
    }
    let mut driver = Driver::new(checking);
    let mut i: usize = 0;
    while i < lines.len()
        invariant
            i <= lines.len(),
            driver.wf(),
            driver.options() == checking,
            checking.check,
            !driver.is_halted(),
            driver.history() == lines_view(lines@).take(i as int),
            all_sorted(*opts, lines_view(lines@).take(i as int)),
            forall|l: Seq<char>| #[trigger] line_sorted(checking, l) == line_sorted(*opts, l),
        decreases lines.len() - i,
    {
        let text: &str = lines[i].as_str();
        assert(text@ == lines_view(lines@)[i as int]);
        let step = driver.feed(text);
        assert(lines_view(lines@).take(i + 1) =~= lines_view(lines@).take(i as int).push(
            lines@[i as int]@,
        ));
        if let Step::Fail(n) = step {
            assert(!line_sorted(*opts, lines_view(lines@)[i as int]));
            assert(lines_view(lines@).take(i as int) =~= lines_view(lines@).take(n - 1));
            return Some(n);
        }
        assert(line_sorted(checking, text@));
        assert(all_sorted(*opts, lines_view(lines@).take(i + 1))) by {
            assert forall|k: int| 0 <= k < i + 1 implies #[trigger] line_sorted(
                *opts,
                lines_view(lines@).take(i + 1)[k],
            ) by {
                if k < i {
                    assert(lines_view(lines@).take(i + 1)[k] == lines_view(lines@).take(
                        i as int,
                    )[k]);
                }
            }
        }
        i = i + 1;
    }
    assert(lines_view(lines@).take(lines.len() as int) =~= lines_view(lines@));
    None
}

} // verus!
