//! A minimal ANSI/VT100 escape-sequence parser: cursor movement
//! (CUU/CUD/CUF/CUB/CUP), erase (ED/EL) and SGR (colours and bold). The
//! parser decides; what it decides comes out as a list of `ScreenOp`s for
//! whoever owns the screen to carry out, in order.
use vstd::prelude::*;

verus! {

pub const MAX_PARAMS: usize = 8;
pub const ESC: u8 = 0x1B;

/// Where the parser is inside an escape sequence.
#[derive(Clone, Copy, Debug, PartialEq, Eq, Structural)]
pub enum State {
    Ground,
    Escape,
    Csi,
}

/// A screen colour as SGR names it: one of the eight basic ANSI colours
/// (`Low(n)`, `n` in `0..8`), its bright variant, or the two defaults.
#[derive(Clone, Copy, Debug, PartialEq, Eq, Structural)]
pub enum Color {
    Low(u8),
    Bright(u8),
    LightGray,
    Black,
}

/// One operation on the screen.
#[derive(Clone, Copy, Debug, PartialEq, Eq, Structural)]
pub enum ScreenOp {
    /// Print (or interpret, for control bytes) one character.
    PutChar(u8),
    /// Move the cursor by `(rows, cols)`.
    MoveCursor(i32, i32),
    /// Put the cursor at the 0-based `(row, col)`.
    SetCursorPos(usize, usize),
    EraseInDisplay(u16),
    EraseInLine(u16),
    ResetAttributes,
    SetBold(bool),
    SetFg(Color),
    SetBg(Color),
}

/// The parser's state as a value: the sequence state, the numeric
/// parameters gathered so far and how many of them are in use.
pub struct AnsiModel {
    pub state: State,
    pub params: Seq<u16>,
    pub nparams: nat,
}

/// The parser.
pub struct AnsiState {
    state: State,
    params: [u16; MAX_PARAMS],
    nparams: usize,
}

/// Parameter `idx`, or `default` when it is missing or zero.
pub open spec fn param_spec(m: AnsiModel, idx: int, default: u16) -> u16 {
    if idx < m.nparams && m.params[idx] != 0 { m.params[idx] } else { default }
}

/// Parameter `idx`, or zero when it is missing.
pub open spec fn raw_param_spec(m: AnsiModel, idx: int) -> u16 {
    if idx < m.nparams { m.params[idx] } else { 0 }
}

/// The screen operation one SGR parameter stands for, if any.
pub open spec fn sgr_op(p: u16) -> Option<ScreenOp> {
    if p == 0 {
        Some(ScreenOp::ResetAttributes)
    } else if p == 1 {
        Some(ScreenOp::SetBold(true))
    } else if p == 22 {
        Some(ScreenOp::SetBold(false))
    } else if 30 <= p <= 37 {
        Some(ScreenOp::SetFg(Color::Low((p - 30) as u8)))
    } else if p == 39 {
        Some(ScreenOp::SetFg(Color::LightGray))
    } else if 40 <= p <= 47 {
        Some(ScreenOp::SetBg(Color::Low((p - 40) as u8)))
    } else if p == 49 {
        Some(ScreenOp::SetBg(Color::Black))
    } else if 90 <= p <= 97 {
        Some(ScreenOp::SetFg(Color::Bright((p - 90) as u8)))
    } else if 100 <= p <= 107 {
        Some(ScreenOp::SetBg(Color::Low((p - 100) as u8)))
    } else {
        None
    }
}

/// The operations the SGR parameters `ps` stand for, in order.
pub open spec fn sgr_ops(ps: Seq<u16>) -> Seq<ScreenOp>
    decreases ps.len(),
{
    if ps.len() == 0 {
        Seq::empty()
    } else {
        let rest = sgr_ops(ps.drop_last());
        match sgr_op(ps.last()) {
            Some(op) => rest.push(op),
            None => rest,
        }
    }
}

/// What a final byte `byte` of a CSI sequence does.
pub open spec fn execute_spec(m: AnsiModel, byte: u8) -> Seq<ScreenOp> {
    let n = param_spec(m, 0, 1) as i32;
    if byte == 0x41 {
        seq![ScreenOp::MoveCursor((-n) as i32, 0)]
    } else if byte == 0x42 {
        seq![ScreenOp::MoveCursor(n, 0)]
    } else if byte == 0x43 {
        seq![ScreenOp::MoveCursor(0, n)]
    } else if byte == 0x44 {
        seq![ScreenOp::MoveCursor(0, (-n) as i32)]
    } else if byte == 0x48 || byte == 0x66 {
        seq![ScreenOp::SetCursorPos((param_spec(m, 0, 1) - 1) as usize, (param_spec(m, 1, 1) - 1) as usize)]
    } else if byte == 0x4A {
        seq![ScreenOp::EraseInDisplay(raw_param_spec(m, 0))]
    } else if byte == 0x4B {
        seq![ScreenOp::EraseInLine(raw_param_spec(m, 0))]
    } else if byte == 0x6D {
        if m.nparams == 0 {
            seq![ScreenOp::ResetAttributes]
        } else {
            sgr_ops(m.params.take(m.nparams as int))
        }
    } else {
        Seq::empty()
    }
}

/// `p * 10 + d`, saturating at `u16::MAX` after each step.
pub open spec fn push_digit(p: u16, d: u8) -> u16 {
    let m: nat = if p * 10 > 0xFFFF { 0xFFFF } else { (p * 10) as nat };
    if m + d > 0xFFFF { 0xFFFF } else { (m + d) as u16 }
}

/// The parser after `byte`, and what `byte` does to the screen.
pub open spec fn feed_spec(m: AnsiModel, byte: u8) -> (AnsiModel, Seq<ScreenOp>) {
    match m.state {
        State::Ground => if byte == ESC {
            (AnsiModel { state: State::Escape, ..m }, Seq::empty())
        } else {
            (m, seq![ScreenOp::PutChar(byte)])
        },
        State::Escape => if byte == 0x5B {
            (AnsiModel { state: State::Csi, params: Seq::new(MAX_PARAMS as nat, |i: int| 0u16), nparams: 0 }, Seq::empty())
        } else {
            (AnsiModel { state: State::Ground, ..m }, Seq::empty())
        },
        State::Csi => if 0x30 <= byte <= 0x39 {
            let n = if m.nparams == 0 { 1 } else { m.nparams };
            let idx = n - 1;
            (AnsiModel { params: m.params.update(idx, push_digit(m.params[idx], (byte - 0x30) as u8)), nparams: n, ..m }, Seq::empty())
        } else if byte == 0x3B {
            (AnsiModel { nparams: if m.nparams < MAX_PARAMS { m.nparams + 1 } else { m.nparams }, ..m }, Seq::empty())
        } else if byte == 0x3F {
            (m, Seq::empty())
        } else if 0x40 <= byte <= 0x7E {
            (AnsiModel { state: State::Ground, ..m }, execute_spec(m, byte))
        } else {
            (AnsiModel { state: State::Ground, ..m }, Seq::empty())
        },
    }
}

impl AnsiState {
    /// At most `MAX_PARAMS` parameters are ever in use.
    #[verifier::type_invariant]
    spec fn inv(self) -> bool {
        self.nparams <= MAX_PARAMS
    }

    /// The parser's state as a value.
    pub closed spec fn view(&self) -> AnsiModel {
        AnsiModel { state: self.state, params: self.params@, nparams: self.nparams as nat }
    }

    /// A parser in the ground state with no parameters.
    pub fn new() -> (r: Self)
        ensures
            r.view().state == State::Ground,
            r.view().nparams == 0,
            r.view().params == Seq::new(MAX_PARAMS as nat, |i: int| 0u16),
    {
        let r = AnsiState { state: State::Ground, params: [0; MAX_PARAMS], nparams: 0 };
        assert(r.params@ =~= Seq::new(MAX_PARAMS as nat, |i: int| 0u16));
        r
    }

    /// Feeds one byte of console output through the parser and returns the
    /// screen operations it causes, in order.
    pub fn feed(&mut self, byte: u8) -> (r: Vec<ScreenOp>)
        ensures
            final(self).view() == feed_spec(old(self).view(), byte).0,
            r@ == feed_spec(old(self).view(), byte).1,
    {
        proof {
            use_type_invariant(&*self);
        }
        let mut out: Vec<ScreenOp> = Vec::new();
        match self.state {
            State::Ground => {
                if byte == ESC {
                    self.state = State::Escape;
                } else {
                    out.push(ScreenOp::PutChar(byte));
                }
            },
            State::Escape => {
                if byte == 0x5B {
                    self.params = [0; MAX_PARAMS];
                    self.nparams = 0;
                    self.state = State::Csi;
                    assert(self.params@ =~= Seq::new(MAX_PARAMS as nat, |i: int| 0u16));
                } else {
                    self.state = State::Ground;
                }
            },
            State::Csi => {
                if 0x30 <= byte && byte <= 0x39 {
                    if self.nparams == 0 {
                        self.nparams = 1;
                    }
                    let idx = self.nparams - 1;
                    if idx < MAX_PARAMS {
                        let p = self.params[idx];
                        let m = match p.checked_mul(10) {
                            Some(v) => v,
                            None => u16::MAX,
                        };
                        self.params[idx] = m.saturating_add((byte - 0x30) as u16);
                    }
                } else if byte == 0x3B {
                    if self.nparams < MAX_PARAMS {
                        self.nparams = self.nparams + 1;
                    }
                } else if byte == 0x3F {
                    // Private-mode sequences are accepted but ignored.
                } else if 0x40 <= byte && byte <= 0x7E {
                    out = self.execute(byte);
                    self.state = State::Ground;
                } else {
                    self.state = State::Ground;
                }
            },
        }
        proof {
            let m = feed_spec(old(self).view(), byte).0;
            assert(self.view().params =~= m.params);
        }
        out
    }

    /// Parameter `idx`, or `default` when it is missing or zero.
    fn param(&self, idx: usize, default: u16) -> (r: u16)
        ensures
            r == param_spec(self.view(), idx as int, default),
    {
        proof {
            use_type_invariant(self);
        }
        if idx < self.nparams && self.params[idx] != 0 {
            self.params[idx]
        } else {
            default
        }
    }

    /// Parameter `idx`, or zero when it is missing.
    fn raw_param(&self, idx: usize) -> (r: u16)
        ensures
            r == raw_param_spec(self.view(), idx as int),
    {
        proof {
            use_type_invariant(self);
        }
        if idx < self.nparams {
            self.params[idx]
        } else {
            0
        }
    }

    /// The screen operations a CSI sequence ending in `byte` performs.
    fn execute(&self, byte: u8) -> (r: Vec<ScreenOp>)
        ensures
            r@ == execute_spec(self.view(), byte),
    {
        let mut out: Vec<ScreenOp> = Vec::new();
        if byte == 0x41 {
            out.push(ScreenOp::MoveCursor(-(self.param(0, 1) as i32), 0));
        } else if byte == 0x42 {
            out.push(ScreenOp::MoveCursor(self.param(0, 1) as i32, 0));
        } else if byte == 0x43 {
            out.push(ScreenOp::MoveCursor(0, self.param(0, 1) as i32));
        } else if byte == 0x44 {
            out.push(ScreenOp::MoveCursor(0, -(self.param(0, 1) as i32)));
        } else if byte == 0x48 || byte == 0x66 {
            let row = self.param(0, 1).saturating_sub(1) as usize;
            let col = self.param(1, 1).saturating_sub(1) as usize;
            out.push(ScreenOp::SetCursorPos(row, col));
        } else if byte == 0x4A {
            out.push(ScreenOp::EraseInDisplay(self.raw_param(0)));
        } else if byte == 0x4B {
            out.push(ScreenOp::EraseInLine(self.raw_param(0)));
        } else if byte == 0x6D {
            out = self.apply_sgr();
        }
        out
    }

    /// The operations of an SGR (`m`) sequence: attribute reset for no
    /// parameters, else one operation per recognised parameter, in order.
    fn apply_sgr(&self) -> (r: Vec<ScreenOp>)
        ensures
            r@ == (if self.view().nparams == 0 {
                seq![ScreenOp::ResetAttributes]
            } else {
                sgr_ops(self.view().params.take(self.view().nparams as int))
            }),
    {
        proof {
            use_type_invariant(self);
        }
        let mut out: Vec<ScreenOp> = Vec::new();
        if self.nparams == 0 {
            out.push(ScreenOp::ResetAttributes);
            return out;
        }
        let mut i: usize = 0;
        while i < self.nparams
            invariant
                i <= self.nparams <= MAX_PARAMS,
                out@ == sgr_ops(self.params@.take(i as int)),
            decreases self.nparams - i,
        {
            let p = self.params[i];
            proof {
                assert(self.params@.take(i + 1).drop_last() =~= self.params@.take(i as int));
            }
            if p == 0 {
                out.push(ScreenOp::ResetAttributes);
            } else if p == 1 {
                out.push(ScreenOp::SetBold(true));
            } else if p == 22 {
                out.push(ScreenOp::SetBold(false));
            } else if 30 <= p && p <= 37 {
                out.push(ScreenOp::SetFg(Color::Low((p - 30) as u8)));
            } else if p == 39 {
                out.push(ScreenOp::SetFg(Color::LightGray));
            } else if 40 <= p && p <= 47 {
                out.push(ScreenOp::SetBg(Color::Low((p - 40) as u8)));
            } else if p == 49 {
                out.push(ScreenOp::SetBg(Color::Black));
            } else if 90 <= p && p <= 97 {
                out.push(ScreenOp::SetFg(Color::Bright((p - 90) as u8)));
            } else if 100 <= p && p <= 107 {
                out.push(ScreenOp::SetBg(Color::Low((p - 100) as u8)));
            }
            i = i + 1;
        }
        out
    }
}

/// What feeding the bytes of `bs` one by one does to the screen, and the
/// parser after them.
pub open spec fn feed_all(m: AnsiModel, bs: Seq<u8>) -> (AnsiModel, Seq<ScreenOp>)
    decreases bs.len(),
{
    if bs.len() == 0 {
        (m, Seq::empty())
    } else {
        let (m1, ops) = feed_spec(m, bs[0]);
        let (m2, rest) = feed_all(m1, bs.drop_first());
        (m2, ops + rest)
    }
}

/// Erase in display (`J`) and erase in line (`K`) take their mode from the
/// sequence's first parameter exactly as it was given, and mode 0 when
/// there is none: ending a CSI sequence with 0x4A gives just
/// `EraseInDisplay` of that mode, with 0x4B just `EraseInLine`.
pub proof fn lemma_erase_mode_is_first_param(m: AnsiModel)
    requires
        m.state == State::Csi,
    ensures
        feed_spec(m, 0x4A).1 == seq![ScreenOp::EraseInDisplay(if m.nparams == 0 { 0u16 } else { m.params[0] })],
        feed_spec(m, 0x4B).1 == seq![ScreenOp::EraseInLine(if m.nparams == 0 { 0u16 } else { m.params[0] })],
        feed_spec(m, 0x4A).0.state == State::Ground,
{
}

/// From the ground state, `ESC [ J` erases from the cursor to the end of
/// the display (mode 0), and `ESC [ d J` for a single digit `d` erases with
/// mode `d` (so `ESC [ 0 J` is mode 0 and `ESC [ 2 J` the whole screen).
pub proof fn lemma_erase_display_sequences(m: AnsiModel, d: u8)
    requires
        m.state == State::Ground,
        d <= 9,
    ensures
        feed_all(m, seq![0x1Bu8, 0x5Bu8, 0x4Au8]).1 == seq![ScreenOp::EraseInDisplay(0u16)],
        feed_all(m, seq![0x1Bu8, 0x5Bu8, (0x30 + d) as u8, 0x4Au8]).1 == seq![ScreenOp::EraseInDisplay(d as u16)],
{
    let s3 = seq![0x1Bu8, 0x5Bu8, 0x4Au8];
    assert(s3.drop_first() =~= seq![0x5Bu8, 0x4Au8]);
    assert(s3.drop_first().drop_first() =~= seq![0x4Au8]);
    assert(s3.drop_first().drop_first().drop_first() =~= Seq::<u8>::empty());
    let s4 = seq![0x1Bu8, 0x5Bu8, (0x30 + d) as u8, 0x4Au8];
    assert(s4.drop_first() =~= seq![0x5Bu8, (0x30 + d) as u8, 0x4Au8]);
    assert(s4.drop_first().drop_first() =~= seq![(0x30 + d) as u8, 0x4Au8]);
    assert(s4.drop_first().drop_first().drop_first() =~= seq![0x4Au8]);
    assert(s4.drop_first().drop_first().drop_first().drop_first() =~= Seq::<u8>::empty());
    let m1 = feed_spec(m, 0x1B).0;
    let m2 = feed_spec(m1, 0x5B).0;
    let m3 = feed_spec(m2, (0x30 + d) as u8).0;
    assert(m2.params[0] == 0u16);
    assert(push_digit(0u16, d) == d as u16);
    assert(m3.params[0] == d as u16 && m3.nparams == 1);
    reveal_with_fuel(feed_all, 5);
    assert(feed_spec(m1, 0x5B).1 =~= Seq::<ScreenOp>::empty());
    assert(feed_all(m, s3).1 =~= seq![ScreenOp::EraseInDisplay(0u16)]);
    assert(feed_all(m, s4).1 =~= seq![ScreenOp::EraseInDisplay(d as u16)]);
}

/// The cursor and attribute sequences, by their first parameters (a
/// missing or zero count or coordinate counting as 1): `A` moves the cursor
/// up that many rows, `B` down, `C` right, `D` left; `H` and `f` put it at
/// the 1-based row and column given (0-based on the screen); `m` without
/// parameters resets the attributes, and `m` with the single parameter 0,
/// 1, 22, 30..37, 39, 40..47, 49, 90..97 or 100..107 resets, sets bold,
/// clears bold, sets one of the eight foreground colours, the default
/// foreground, one of the eight background colours, the default
/// background, a bright foreground or a background, respectively.
pub proof fn lemma_csi_sequences(m: AnsiModel)
    requires
        m.state == State::Csi,
        m.params.len() == MAX_PARAMS,
    ensures
        ({
            let p0: int = if m.nparams == 0 || m.params[0] == 0 { 1 } else { m.params[0] as int };
            let p1: int = if m.nparams <= 1 || m.params[1] == 0 { 1 } else { m.params[1] as int };
            &&& feed_spec(m, 0x41).1 == seq![ScreenOp::MoveCursor((-p0) as i32, 0i32)]
            &&& feed_spec(m, 0x42).1 == seq![ScreenOp::MoveCursor(p0 as i32, 0i32)]
            &&& feed_spec(m, 0x43).1 == seq![ScreenOp::MoveCursor(0i32, p0 as i32)]
            &&& feed_spec(m, 0x44).1 == seq![ScreenOp::MoveCursor(0i32, (-p0) as i32)]
            &&& feed_spec(m, 0x48).1 == seq![ScreenOp::SetCursorPos((p0 - 1) as usize, (p1 - 1) as usize)]
            &&& feed_spec(m, 0x66).1 == seq![ScreenOp::SetCursorPos((p0 - 1) as usize, (p1 - 1) as usize)]
            &&& m.nparams == 0 ==> feed_spec(m, 0x6D).1 == seq![ScreenOp::ResetAttributes]
            &&& m.nparams == 1 ==> {
                let p = m.params[0];
                &&& p == 0 ==> feed_spec(m, 0x6D).1 == seq![ScreenOp::ResetAttributes]
                &&& p == 1 ==> feed_spec(m, 0x6D).1 == seq![ScreenOp::SetBold(true)]
                &&& p == 22 ==> feed_spec(m, 0x6D).1 == seq![ScreenOp::SetBold(false)]
                &&& 30 <= p <= 37 ==> feed_spec(m, 0x6D).1 == seq![ScreenOp::SetFg(Color::Low((p - 30) as u8))]
                &&& p == 39 ==> feed_spec(m, 0x6D).1 == seq![ScreenOp::SetFg(Color::LightGray)]
                &&& 40 <= p <= 47 ==> feed_spec(m, 0x6D).1 == seq![ScreenOp::SetBg(Color::Low((p - 40) as u8))]
                &&& p == 49 ==> feed_spec(m, 0x6D).1 == seq![ScreenOp::SetBg(Color::Black)]
                &&& 90 <= p <= 97 ==> feed_spec(m, 0x6D).1 == seq![ScreenOp::SetFg(Color::Bright((p - 90) as u8))]
                &&& 100 <= p <= 107 ==> feed_spec(m, 0x6D).1 == seq![ScreenOp::SetBg(Color::Low((p - 100) as u8))]
            }
        }),
{
    if m.nparams == 1 {
        let ps = m.params.take(1);
        assert(ps.drop_last() =~= Seq::<u16>::empty());
        assert(ps.last() == m.params[0]);
        assert(sgr_ops(ps.drop_last()) =~= Seq::<ScreenOp>::empty());
    }
}

} // verus!
