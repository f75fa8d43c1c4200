//! The combinator algebra: alternation, padding, filtering, mapping, and
//! the sequencing family. Each combinator owns its sub-parsers and holds no
//! cursor state of its own.

use core::marker::PhantomData;
use vstd::prelude::*;

use crate::input::{Input, InputRef};
use crate::parser::{ParseError, ParseResult, Parser};

verus! {

/// The alternative combinator: save the offset, attempt the first branch;
/// on its failure rewind to the saved offset and attempt the second. The
/// overall result is whichever succeeded, or the second branch's failure if
/// both fail. Nested alternatives try left-to-right; the first success wins.
#[derive(Clone, Copy)]
pub struct Or<P1, P2> {
    pub first_parser: P1,
    pub second_parser: P2,
}

impl<I, P1, P2, OP> Parser<I, OP> for Or<P1, P2> where
    I: Input,
    P1: Parser<I, OP>,
    P2: Parser<I, OP>,
 {
    open spec fn wf(&self) -> bool {
        self.first_parser.wf() && self.second_parser.wf()
    }

    open spec fn ok(&self, src: Seq<I::Token>, start: int, end: int, o: OP) -> bool {
        ||| self.first_parser.ok(src, start, end, o)
        ||| ((exists|e1: int| self.first_parser.bad(src, start, e1)) && self.second_parser.ok(
            src,
            start,
            end,
            o,
        ))
    }

    open spec fn bad(&self, src: Seq<I::Token>, start: int, end: int) -> bool {
        (exists|e1: int| self.first_parser.bad(src, start, e1)) && self.second_parser.bad(
            src,
            start,
            end,
        )
    }

    open spec fn same_out(&self, o1: OP, o2: OP) -> bool {
        self.first_parser.same_out(o1, o2) || self.second_parser.same_out(o1, o2)
    }

    fn go(&self, input_ref: &mut InputRef<'_, I>) -> (r: ParseResult<OP>) {
        let prev_state = input_ref.offset();
        if let Ok(out) = self.first_parser.go(input_ref) {
            Ok(out)
        } else {
            input_ref.rewind(prev_state);
            self.second_parser.go(input_ref)
        }
    }

    proof fn lemma_deterministic(
        &self,
        src: Seq<I::Token>,
        start: int,
        e1: int,
        e2: int,
        o1: OP,
        o2: OP,
    ) {
        if exists|e0: int| self.first_parser.bad(src, start, e0) {
            let e0 = choose|e0: int| self.first_parser.bad(src, start, e0);
            self.first_parser.lemma_deterministic(src, start, e1, e0, o1, o2);
            self.first_parser.lemma_deterministic(src, start, e2, e0, o2, o1);
        }
        self.first_parser.lemma_deterministic(src, start, e1, e2, o1, o2);
        self.second_parser.lemma_deterministic(src, start, e1, e2, o1, o2);
    }
}

/// The surrounding combinator: run the padding parser once (ignoring its
/// result and its failure), run the inner parser, and on its success run the
/// padding once again. Only the inner parser's failure propagates; the
/// padding runs are never a source of combinator failure.
#[derive(Clone, Copy)]
pub struct Padded<I, P1, OP1, P2, OP2> {
    pub parser: P1,
    pub padded_by: P2,
    pub phantom: PhantomData<(I, OP1, OP2)>,
}

impl<I, P1, OP1, P2, OP2> Padded<I, P1, OP1, P2, OP2> where
    I: Input,
    P1: Parser<I, OP1>,
    P2: Parser<I, OP2>,
 {
    /// One padding run from `start` may leave the cursor at `end`, whether
    /// the padding succeeded or failed.
    pub open spec fn pad_to(&self, src: Seq<I::Token>, start: int, end: int) -> bool {
        (exists|o2: OP2| self.padded_by.ok(src, start, end, o2)) || self.padded_by.bad(
            src,
            start,
            end,
        )
    }

    /// A padding run from one offset ends at exactly one place.
    proof fn lemma_pad_to_det(&self, src: Seq<I::Token>, start: int, m1: int, m2: int)
        requires
            self.padded_by.wf(),
            self.pad_to(src, start, m1),
            self.pad_to(src, start, m2),
        ensures
            m1 == m2,
    {
        if exists|o2: OP2| self.padded_by.ok(src, start, m1, o2) {
            let w1 = choose|o2: OP2| self.padded_by.ok(src, start, m1, o2);
            if exists|o2: OP2| self.padded_by.ok(src, start, m2, o2) {
                let w2 = choose|o2: OP2| self.padded_by.ok(src, start, m2, o2);
                self.padded_by.lemma_deterministic(src, start, m1, m2, w1, w2);
            } else {
                self.padded_by.lemma_deterministic(src, start, m1, m2, w1, w1);
            }
        } else {
            if exists|o2: OP2| self.padded_by.ok(src, start, m2, o2) {
                let w2 = choose|o2: OP2| self.padded_by.ok(src, start, m2, o2);
                self.padded_by.lemma_deterministic(src, start, m2, m1, w2, w2);
            } else {
                self.padded_by.lemma_deterministic(
                    src,
                    start,
                    m1,
                    m2,
                    vstd::pervasive::arbitrary(),
                    vstd::pervasive::arbitrary(),
                );
            }
        }
    }
}

impl<I, P1, OP1, P2, OP2> Parser<I, OP1> for Padded<I, P1, OP1, P2, OP2> where
    I: Input,
    P1: Parser<I, OP1>,
    P2: Parser<I, OP2>,
 {
    open spec fn wf(&self) -> bool {
        self.parser.wf() && self.padded_by.wf()
    }

    open spec fn ok(&self, src: Seq<I::Token>, start: int, end: int, o: OP1) -> bool {
        exists|m1: int, m2: int|
            {
                &&& self.pad_to(src, start, m1)
                &&& self.parser.ok(src, m1, m2, o)
                &&& self.pad_to(src, m2, end)
            }
    }

    open spec fn bad(&self, src: Seq<I::Token>, start: int, end: int) -> bool {
        exists|m1: int|
            {
                &&& self.pad_to(src, start, m1)
                &&& self.parser.bad(src, m1, end)
            }
    }

    open spec fn same_out(&self, o1: OP1, o2: OP1) -> bool {
        self.parser.same_out(o1, o2)
    }

    fn go(&self, input_ref: &mut InputRef<'_, I>) -> (r: ParseResult<OP1>) {
        let _ = self.padded_by.go(input_ref);
        let res = self.parser.go(input_ref);
        match res {
            Ok(out) => {
                let _ = self.padded_by.go(input_ref);
                Ok(out)
            },
            Err(e) => Err(e),
        }
    }

    proof fn lemma_deterministic(
        &self,
        src: Seq<I::Token>,
        start: int,
        e1: int,
        e2: int,
        o1: OP1,
        o2: OP1,
    ) {
        if self.wf() {
            if self.ok(src, start, e1, o1) && self.ok(src, start, e2, o2) {
                let (m11, m12) = choose|m1: int, m2: int|
                    self.pad_to(src, start, m1) && self.parser.ok(src, m1, m2, o1) && self.pad_to(
                        src,
                        m2,
                        e1,
                    );
                let (m21, m22) = choose|m1: int, m2: int|
                    self.pad_to(src, start, m1) && self.parser.ok(src, m1, m2, o2) && self.pad_to(
                        src,
                        m2,
                        e2,
                    );
                self.lemma_pad_to_det(src, start, m11, m21);
                self.parser.lemma_deterministic(src, m11, m12, m22, o1, o2);
                self.lemma_pad_to_det(src, m12, e1, e2);
            }
            if self.ok(src, start, e1, o1) && self.bad(src, start, e2) {
                let (m11, m12) = choose|m1: int, m2: int|
                    self.pad_to(src, start, m1) && self.parser.ok(src, m1, m2, o1) && self.pad_to(
                        src,
                        m2,
                        e1,
                    );
                let m21 = choose|m1: int|
                    self.pad_to(src, start, m1) && self.parser.bad(src, m1, e2);
                self.lemma_pad_to_det(src, start, m11, m21);
                self.parser.lemma_deterministic(src, m11, m12, e2, o1, o2);
            }
            if self.bad(src, start, e1) && self.bad(src, start, e2) {
                let m11 = choose|m1: int|
                    self.pad_to(src, start, m1) && self.parser.bad(src, m1, e1);
                let m21 = choose|m1: int|
                    self.pad_to(src, start, m1) && self.parser.bad(src, m1, e2);
                self.lemma_pad_to_det(src, start, m11, m21);
                self.parser.lemma_deterministic(src, m11, e1, e2, o1, o2);
            }
        }
    }
}

/// The predicate-filter combinator: run the inner parser; if the predicate
/// rejects the output, rewind to the pre-attempt offset and fail; else pass
/// the output through unchanged. The offset is restored on predicate
/// rejection only — an inner failure propagates as-is.
#[derive(Clone, Copy)]
pub struct Filter<I, P, O, F> {
    pub parser: P,
    pub filter_func: F,
    pub phantom: PhantomData<(I, O)>,
}

impl<I, P, O, F> Parser<I, O> for Filter<I, P, O, F> where
    I: Input,
    P: Parser<I, O>,
    F: Fn(&O) -> bool,
 {
    open spec fn wf(&self) -> bool {
        &&& self.parser.wf()
        &&& forall|o: &O| call_requires(self.filter_func, (o,))
        &&& forall|oa: O, ob: O, ba: bool, bb: bool|
            self.parser.same_out(oa, ob) && call_ensures(self.filter_func, (&oa,), ba)
                && call_ensures(self.filter_func, (&ob,), bb) ==> ba == bb
    }

    open spec fn ok(&self, src: Seq<I::Token>, start: int, end: int, o: O) -> bool {
        self.parser.ok(src, start, end, o) && call_ensures(self.filter_func, (&o,), true)
    }

    open spec fn bad(&self, src: Seq<I::Token>, start: int, end: int) -> bool {
        ||| self.parser.bad(src, start, end)
        ||| (exists|e1: int, o: O|
            self.parser.ok(src, start, e1, o) && call_ensures(self.filter_func, (&o,), false)
                && end == start)
    }

    open spec fn same_out(&self, o1: O, o2: O) -> bool {
        self.parser.same_out(o1, o2)
    }

    fn go(&self, input_ref: &mut InputRef<'_, I>) -> (r: ParseResult<O>) {
        let prev_state = input_ref.offset();
        let res = self.parser.go(input_ref);
        match res {
            Ok(out) => {
                if (self.filter_func)(&out) {
                    Ok(out)
                } else {
                    input_ref.rewind(prev_state);
                    Err(ParseError::SyntaxError)
                }
            },
            Err(e) => Err(e),
        }
    }

    proof fn lemma_deterministic(
        &self,
        src: Seq<I::Token>,
        start: int,
        e1: int,
        e2: int,
        o1: O,
        o2: O,
    ) {
        if self.wf() {
            self.parser.lemma_deterministic(src, start, e1, e2, o1, o2);
            if self.ok(src, start, e1, o1) && self.bad(src, start, e2) {
                if !self.parser.bad(src, start, e2) {
                    let (eb, ob) = choose|eb: int, ob: O|
                        self.parser.ok(src, start, eb, ob) && call_ensures(
                            self.filter_func,
                            (&ob,),
                            false,
                        ) && e2 == start;
                    self.parser.lemma_deterministic(src, start, e1, eb, o1, ob);
                }
            }
            if self.bad(src, start, e1) && self.bad(src, start, e2) {
                if !self.parser.bad(src, start, e1) && self.parser.bad(src, start, e2) {
                    let (eb, ob) = choose|eb: int, ob: O|
                        self.parser.ok(src, start, eb, ob) && call_ensures(
                            self.filter_func,
                            (&ob,),
                            false,
                        ) && e1 == start;
                    self.parser.lemma_deterministic(src, start, eb, e2, ob, ob);
                }
                if self.parser.bad(src, start, e1) && !self.parser.bad(src, start, e2) {
                    let (eb, ob) = choose|eb: int, ob: O|
                        self.parser.ok(src, start, eb, ob) && call_ensures(
                            self.filter_func,
                            (&ob,),
                            false,
                        ) && e2 == start;
                    self.parser.lemma_deterministic(src, start, eb, e1, ob, ob);
                }
            }
        }
    }
}

/// The transform combinator: run the inner parser and, on success, apply a
/// pure function to its output. It changes no offset beyond the inner
/// parser's own movement.
#[derive(Clone, Copy)]
pub struct Mapped<I, P, OP, F, U> {
    pub mapper: F,
    pub parser: P,
    pub phantom: PhantomData<(I, U, OP)>,
}

impl<I, P, OP, F, U> Parser<I, U> for Mapped<I, P, OP, F, U> where
    I: Input,
    P: Parser<I, OP>,
    F: Fn(OP) -> U,
 {
    open spec fn wf(&self) -> bool {
        &&& self.parser.wf()
        &&& forall|o: OP| call_requires(self.mapper, (o,))
        &&& forall|oa: OP, ob: OP, ua: U, ub: U|
            self.parser.same_out(oa, ob) && call_ensures(self.mapper, (oa,), ua) && call_ensures(
                self.mapper,
                (ob,),
                ub,
            ) ==> ua == ub
    }

    open spec fn ok(&self, src: Seq<I::Token>, start: int, end: int, u: U) -> bool {
        exists|o: OP| self.parser.ok(src, start, end, o) && call_ensures(self.mapper, (o,), u)
    }

    open spec fn bad(&self, src: Seq<I::Token>, start: int, end: int) -> bool {
        self.parser.bad(src, start, end)
    }

    fn go(&self, input_ref: &mut InputRef<'_, I>) -> (r: ParseResult<U>) {
        let res = self.parser.go(input_ref);
        match res {
            Ok(out) => Ok((self.mapper)(out)),
            Err(e) => Err(e),
        }
    }

    proof fn lemma_deterministic(
        &self,
        src: Seq<I::Token>,
        start: int,
        e1: int,
        e2: int,
        u1: U,
        u2: U,
    ) {
        if self.wf() {
            if self.ok(src, start, e1, u1) && self.ok(src, start, e2, u2) {
                let w1 = choose|o: OP|
                    self.parser.ok(src, start, e1, o) && call_ensures(self.mapper, (o,), u1);
                let w2 = choose|o: OP|
                    self.parser.ok(src, start, e2, o) && call_ensures(self.mapper, (o,), u2);
                self.parser.lemma_deterministic(src, start, e1, e2, w1, w2);
            }
            if self.ok(src, start, e1, u1) && self.bad(src, start, e2) {
                let w1 = choose|o: OP|
                    self.parser.ok(src, start, e1, o) && call_ensures(self.mapper, (o,), u1);
                self.parser.lemma_deterministic(src, start, e1, e2, w1, w1);
            }
            self.parser.lemma_deterministic(src, start, e1, e2, vstd::pervasive::arbitrary(), vstd::pervasive::arbitrary());
        }
    }
}

/// Two parsers run one after the other against the same cursor. A failure
/// of either propagates as-is, with the cursor left at the failure point.
#[derive(Clone, Copy)]
pub struct Bind<I, P1, OP1, P2, OP2> {
    pub first_parser: P1,
    pub second_parser: P2,
    pub phantom: PhantomData<(I, OP1, OP2)>,
}

/// The sequence-both combinator: run both parsers and pair their outputs.
#[derive(Clone, Copy)]
pub struct And<I, P1, OP1, P2, OP2>(pub Bind<I, P1, OP1, P2, OP2>);

/// The sequence-keep-first combinator: run both parsers, keep the first
/// output, discard the second.
#[derive(Clone, Copy)]
pub struct LeftBind<I, P1, OP1, P2, OP2>(pub Bind<I, P1, OP1, P2, OP2>);

/// The sequence-keep-second combinator: run both parsers, discard the first
/// output, keep the second.
#[derive(Clone, Copy)]
pub struct RightBind<I, P1, OP1, P2, OP2>(pub Bind<I, P1, OP1, P2, OP2>);

impl<I, P1, OP1, P2, OP2> Bind<I, P1, OP1, P2, OP2> where
    I: Input,
    P1: Parser<I, OP1>,
    P2: Parser<I, OP2>,
 {
    /// The shared failure shape of the sequencing family: the first parser
    /// fails, or it succeeds and the second fails from where it stopped.
    pub open spec fn seq_bad(&self, src: Seq<I::Token>, start: int, end: int) -> bool {
        ||| self.first_parser.bad(src, start, end)
        ||| (exists|m: int, o1: OP1|
            self.first_parser.ok(src, start, m, o1) && self.second_parser.bad(src, m, end))
    }

    /// Both runs of the sequence reach the same intermediate offset, and
    /// the failure shape excludes any success.
    proof fn lemma_seq_det(
        &self,
        src: Seq<I::Token>,
        start: int,
        m1: int,
        m2: int,
        w1: OP1,
        w2: OP1,
        e1: int,
        e2: int,
    )
        requires
            self.first_parser.wf(),
            self.second_parser.wf(),
            self.first_parser.ok(src, start, m1, w1),
            self.first_parser.ok(src, start, m2, w2),
        ensures
            m1 == m2,
            self.first_parser.same_out(w1, w2),
    {
        self.first_parser.lemma_deterministic(src, start, m1, m2, w1, w2);
    }
}

impl<I, P1, OP1, P2, OP2> Parser<I, (OP1, OP2)> for And<I, P1, OP1, P2, OP2> where
    I: Input,
    P1: Parser<I, OP1>,
    P2: Parser<I, OP2>,
 {
    open spec fn wf(&self) -> bool {
        self.0.first_parser.wf() && self.0.second_parser.wf()
    }

    open spec fn ok(&self, src: Seq<I::Token>, start: int, end: int, o: (OP1, OP2)) -> bool {
        exists|m: int|
            self.0.first_parser.ok(src, start, m, o.0) && self.0.second_parser.ok(
                src,
                m,
                end,
                o.1,
            )
    }

    open spec fn bad(&self, src: Seq<I::Token>, start: int, end: int) -> bool {
        self.0.seq_bad(src, start, end)
    }

    open spec fn same_out(&self, o1: (OP1, OP2), o2: (OP1, OP2)) -> bool {
        self.0.first_parser.same_out(o1.0, o2.0) && self.0.second_parser.same_out(o1.1, o2.1)
    }

    fn go(&self, input_ref: &mut InputRef<'_, I>) -> (r: ParseResult<(OP1, OP2)>) {
        let r1 = match self.0.first_parser.go(input_ref) {
            Ok(o) => o,
            Err(e) => {
                return Err(e);
            },
        };
        let ghost mid = input_ref.off();
        let r2 = match self.0.second_parser.go(input_ref) {
            Ok(o) => o,
            Err(e) => {
                return Err(e);
            },
        };
        proof {
            let o = (r1, r2);
            assert(self.0.first_parser.ok(old(input_ref).src(), old(input_ref).off(), mid, o.0));
            assert(self.0.second_parser.ok(old(input_ref).src(), mid, input_ref.off(), o.1));
            assert(self.ok(old(input_ref).src(), old(input_ref).off(), input_ref.off(), o));
        }
        Ok((r1, r2))
    }

    proof fn lemma_deterministic(
        &self,
        src: Seq<I::Token>,
        start: int,
        e1: int,
        e2: int,
        o1: (OP1, OP2),
        o2: (OP1, OP2),
    ) {
        if self.wf() {
            if self.ok(src, start, e1, o1) && self.ok(src, start, e2, o2) {
                let m1 = choose|m: int|
                    self.0.first_parser.ok(src, start, m, o1.0) && self.0.second_parser.ok(
                        src,
                        m,
                        e1,
                        o1.1,
                    );
                let m2 = choose|m: int|
                    self.0.first_parser.ok(src, start, m, o2.0) && self.0.second_parser.ok(
                        src,
                        m,
                        e2,
                        o2.1,
                    );
                self.0.first_parser.lemma_deterministic(src, start, m1, m2, o1.0, o2.0);
                self.0.second_parser.lemma_deterministic(src, m1, e1, e2, o1.1, o2.1);
            }
            if self.ok(src, start, e1, o1) && self.bad(src, start, e2) {
                let m1 = choose|m: int|
                    self.0.first_parser.ok(src, start, m, o1.0) && self.0.second_parser.ok(
                        src,
                        m,
                        e1,
                        o1.1,
                    );
                self.0.first_parser.lemma_deterministic(src, start, m1, e2, o1.0, o2.0);
                if !self.0.first_parser.bad(src, start, e2) {
                    let (mb, ob) = choose|m: int, ow: OP1|
                        self.0.first_parser.ok(src, start, m, ow) && self.0.second_parser.bad(
                            src,
                            m,
                            e2,
                        );
                    self.0.first_parser.lemma_deterministic(src, start, m1, mb, o1.0, ob);
                    self.0.second_parser.lemma_deterministic(src, m1, e1, e2, o1.1, o1.1);
                }
            }
            if self.bad(src, start, e1) && self.bad(src, start, e2) {
                lemma_seq_bad_det(&self.0, src, start, e1, e2);
            }
        }
    }
}

/// Two failures of a sequence from the same entry state end at one offset.
proof fn lemma_seq_bad_det<I, P1, OP1, P2, OP2>(
    b: &Bind<I, P1, OP1, P2, OP2>,
    src: Seq<I::Token>,
    start: int,
    e1: int,
    e2: int,
) where I: Input, P1: Parser<I, OP1>, P2: Parser<I, OP2>
    requires
        b.first_parser.wf(),
        b.second_parser.wf(),
        b.seq_bad(src, start, e1),
        b.seq_bad(src, start, e2),
    ensures
        e1 == e2,
{
    if b.first_parser.bad(src, start, e1) && b.first_parser.bad(src, start, e2) {
        b.first_parser.lemma_deterministic(src, start, e1, e2, vstd::pervasive::arbitrary(), vstd::pervasive::arbitrary());
    } else if b.first_parser.bad(src, start, e1) {
        let (mb, ob) = choose|m: int, ow: OP1|
            b.first_parser.ok(src, start, m, ow) && b.second_parser.bad(src, m, e2);
        b.first_parser.lemma_deterministic(src, start, mb, e1, ob, ob);
    } else if b.first_parser.bad(src, start, e2) {
        let (mb, ob) = choose|m: int, ow: OP1|
            b.first_parser.ok(src, start, m, ow) && b.second_parser.bad(src, m, e1);
        b.first_parser.lemma_deterministic(src, start, mb, e2, ob, ob);
    } else {
        let (m1, ob1) = choose|m: int, ow: OP1|
            b.first_parser.ok(src, start, m, ow) && b.second_parser.bad(src, m, e1);
        let (m2, ob2) = choose|m: int, ow: OP1|
            b.first_parser.ok(src, start, m, ow) && b.second_parser.bad(src, m, e2);
        b.first_parser.lemma_deterministic(src, start, m1, m2, ob1, ob2);
        b.second_parser.lemma_deterministic(src, m1, e1, e2, vstd::pervasive::arbitrary(), vstd::pervasive::arbitrary());
    }
}

impl<I, P1, OP1, P2, OP2> Parser<I, OP1> for LeftBind<I, P1, OP1, P2, OP2> where
    I: Input,
    P1: Parser<I, OP1>,
    P2: Parser<I, OP2>,
 {
    open spec fn wf(&self) -> bool {
        self.0.first_parser.wf() && self.0.second_parser.wf()
    }

    open spec fn ok(&self, src: Seq<I::Token>, start: int, end: int, o: OP1) -> bool {
        exists|m: int, o2: OP2|
            self.0.first_parser.ok(src, start, m, o) && self.0.second_parser.ok(src, m, end, o2)
    }

    open spec fn bad(&self, src: Seq<I::Token>, start: int, end: int) -> bool {
        self.0.seq_bad(src, start, end)
    }

    open spec fn same_out(&self, o1: OP1, o2: OP1) -> bool {
        self.0.first_parser.same_out(o1, o2)
    }

    fn go(&self, input_ref: &mut InputRef<'_, I>) -> (r: ParseResult<OP1>) {
        let ret = match self.0.first_parser.go(input_ref) {
            Ok(o) => o,
            Err(e) => {
                return Err(e);
            },
        };
        match self.0.second_parser.go(input_ref) {
            Ok(_) => Ok(ret),
            Err(e) => Err(e),
        }
    }

    proof fn lemma_deterministic(
        &self,
        src: Seq<I::Token>,
        start: int,
        e1: int,
        e2: int,
        o1: OP1,
        o2: OP1,
    ) {
        if self.wf() {
            if self.ok(src, start, e1, o1) && self.ok(src, start, e2, o2) {
                let (m1, w1) = choose|m: int, w: OP2|
                    self.0.first_parser.ok(src, start, m, o1) && self.0.second_parser.ok(
                        src,
                        m,
                        e1,
                        w,
                    );
                let (m2, w2) = choose|m: int, w: OP2|
                    self.0.first_parser.ok(src, start, m, o2) && self.0.second_parser.ok(
                        src,
                        m,
                        e2,
                        w,
                    );
                self.0.first_parser.lemma_deterministic(src, start, m1, m2, o1, o2);
                self.0.second_parser.lemma_deterministic(src, m1, e1, e2, w1, w2);
            }
            if self.ok(src, start, e1, o1) && self.bad(src, start, e2) {
                let (m1, w1) = choose|m: int, w: OP2|
                    self.0.first_parser.ok(src, start, m, o1) && self.0.second_parser.ok(
                        src,
                        m,
                        e1,
                        w,
                    );
                self.0.first_parser.lemma_deterministic(src, start, m1, e2, o1, o1);
                if !self.0.first_parser.bad(src, start, e2) {
                    let (mb, ob) = choose|m: int, ow: OP1|
                        self.0.first_parser.ok(src, start, m, ow) && self.0.second_parser.bad(
                            src,
                            m,
                            e2,
                        );
                    self.0.first_parser.lemma_deterministic(src, start, m1, mb, o1, ob);
                    self.0.second_parser.lemma_deterministic(src, m1, e1, e2, w1, w1);
                }
            }
            if self.bad(src, start, e1) && self.bad(src, start, e2) {
                lemma_seq_bad_det(&self.0, src, start, e1, e2);
            }
        }
    }
}

impl<I, P1, OP1, P2, OP2> Parser<I, OP2> for RightBind<I, P1, OP1, P2, OP2> where
    I: Input,
    P1: Parser<I, OP1>,
    P2: Parser<I, OP2>,
 {
    open spec fn wf(&self) -> bool {
        self.0.first_parser.wf() && self.0.second_parser.wf()
    }

    open spec fn ok(&self, src: Seq<I::Token>, start: int, end: int, o: OP2) -> bool {
        exists|m: int, o1: OP1|
            self.0.first_parser.ok(src, start, m, o1) && self.0.second_parser.ok(src, m, end, o)
    }

    open spec fn bad(&self, src: Seq<I::Token>, start: int, end: int) -> bool {
        self.0.seq_bad(src, start, end)
    }

    open spec fn same_out(&self, o1: OP2, o2: OP2) -> bool {
        self.0.second_parser.same_out(o1, o2)
    }

    fn go(&self, input_ref: &mut InputRef<'_, I>) -> (r: ParseResult<OP2>) {
        match self.0.first_parser.go(input_ref) {
            Ok(_) => {
            },
            Err(e) => {
                return Err(e);
            },
        }
        self.0.second_parser.go(input_ref)
    }

    proof fn lemma_deterministic(
        &self,
        src: Seq<I::Token>,
        start: int,
        e1: int,
        e2: int,
        o1: OP2,
        o2: OP2,
    ) {
        if self.wf() {
            if self.ok(src, start, e1, o1) && self.ok(src, start, e2, o2) {
                let (m1, w1) = choose|m: int, w: OP1|
                    self.0.first_parser.ok(src, start, m, w) && self.0.second_parser.ok(
                        src,
                        m,
                        e1,
                        o1,
                    );
                let (m2, w2) = choose|m: int, w: OP1|
                    self.0.first_parser.ok(src, start, m, w) && self.0.second_parser.ok(
                        src,
                        m,
                        e2,
                        o2,
                    );
                self.0.first_parser.lemma_deterministic(src, start, m1, m2, w1, w2);
                self.0.second_parser.lemma_deterministic(src, m1, e1, e2, o1, o2);
            }
            if self.ok(src, start, e1, o1) && self.bad(src, start, e2) {
                let (m1, w1) = choose|m: int, w: OP1|
                    self.0.first_parser.ok(src, start, m, w) && self.0.second_parser.ok(
                        src,
                        m,
                        e1,
                        o1,
                    );
                self.0.first_parser.lemma_deterministic(src, start, m1, e2, w1, w1);
                if !self.0.first_parser.bad(src, start, e2) {
                    let (mb, ob) = choose|m: int, ow: OP1|
                        self.0.first_parser.ok(src, start, m, ow) && self.0.second_parser.bad(
                            src,
                            m,
                            e2,
                        );
                    self.0.first_parser.lemma_deterministic(src, start, m1, mb, w1, ob);
                    self.0.second_parser.lemma_deterministic(src, m1, e1, e2, o1, o1);
                }
            }
            if self.bad(src, start, e1) && self.bad(src, start, e2) {
                lemma_seq_bad_det(&self.0, src, start, e1, e2);
            }
        }
    }
}

} // verus!
