//! PS/2 scancode-set-1 decoding: Shift and Ctrl state, `0xE0`-prefixed
//! extended keys, and the mapping of make codes to ASCII. A decoded key is
//! a tagged `u32`: `0..=255` is a plain ASCII byte, `>= 256` one of the
//! `KEY_*` constants below, which have no ASCII form. A Ctrl-chord on a
//! letter gives the ASCII control code (Ctrl-A = 1 .. Ctrl-Z = 26).
use vstd::prelude::*;

verus! {

pub const LEFT_SHIFT: u8 = 0x2A;
pub const RIGHT_SHIFT: u8 = 0x36;
pub const LEFT_CTRL: u8 = 0x1D;
/// Prefix byte of the extended key set; it arrives as a byte of its own
/// before the actual make/break code.
pub const EXTENDED_PREFIX: u8 = 0xE0;

pub const KEY_UP: u32 = 256;
pub const KEY_DOWN: u32 = 257;
pub const KEY_LEFT: u32 = 258;
pub const KEY_RIGHT: u32 = 259;
pub const KEY_HOME: u32 = 260;
pub const KEY_END: u32 = 261;
pub const KEY_DELETE: u32 = 262;
pub const KEY_PAGE_UP: u32 = 263;
pub const KEY_PAGE_DOWN: u32 = 264;

/// Number of make codes the ASCII tables cover.
pub const TABLE_LEN: usize = 58;

/// Unshifted ASCII for each make code (0 = no ASCII form).
pub const SCANCODE_ASCII: [u8; 58] = [
    0, 27, 0x31, 0x32, 0x33, 0x34, 0x35, 0x36, 0x37, 0x38, 0x39, 0x30, 0x2D, 0x3D, 8, 9, 0x71,
    0x77, 0x65, 0x72, 0x74, 0x79, 0x75, 0x69, 0x6F, 0x70, 0x5B, 0x5D, 10, 0, 0x61, 0x73, 0x64,
    0x66, 0x67, 0x68, 0x6A, 0x6B, 0x6C, 0x3B, 0x27, 0x60, 0, 0x5C, 0x7A, 0x78, 0x63, 0x76, 0x62,
    0x6E, 0x6D, 0x2C, 0x2E, 0x2F, 0, 0x2A, 0, 0x20,
];

/// Shifted ASCII for each make code (0 = no ASCII form).
pub const SCANCODE_ASCII_SHIFTED: [u8; 58] = [
    0, 27, 0x21, 0x40, 0x23, 0x24, 0x25, 0x5E, 0x26, 0x2A, 0x28, 0x29, 0x5F, 0x2B, 8, 9, 0x51,
    0x57, 0x45, 0x52, 0x54, 0x59, 0x55, 0x49, 0x4F, 0x50, 0x7B, 0x7D, 10, 0, 0x41, 0x53, 0x44,
    0x46, 0x47, 0x48, 0x4A, 0x4B, 0x4C, 0x3A, 0x22, 0x7E, 0, 0x7C, 0x5A, 0x58, 0x43, 0x56, 0x42,
    0x4E, 0x4D, 0x3C, 0x3E, 0x3F, 0, 0x2A, 0, 0x20,
];

/// The key an extended (`0xE0`-prefixed) make code stands for.
pub open spec fn extended_key_spec(code: u8) -> Option<u32> {
    if code == 0x48 {
        Some(KEY_UP)
    } else if code == 0x50 {
        Some(KEY_DOWN)
    } else if code == 0x4B {
        Some(KEY_LEFT)
    } else if code == 0x4D {
        Some(KEY_RIGHT)
    } else if code == 0x47 {
        Some(KEY_HOME)
    } else if code == 0x4F {
        Some(KEY_END)
    } else if code == 0x53 {
        Some(KEY_DELETE)
    } else if code == 0x49 {
        Some(KEY_PAGE_UP)
    } else if code == 0x51 {
        Some(KEY_PAGE_DOWN)
    } else {
        None
    }
}

/// Maps an extended make code to its key, if it is one this decoder knows.
pub fn extended_key(code: u8) -> (r: Option<u32>)
    ensures
        r == extended_key_spec(code),
{
    match code {
        0x48 => Some(KEY_UP),
        0x50 => Some(KEY_DOWN),
        0x4B => Some(KEY_LEFT),
        0x4D => Some(KEY_RIGHT),
        0x47 => Some(KEY_HOME),
        0x4F => Some(KEY_END),
        0x53 => Some(KEY_DELETE),
        0x49 => Some(KEY_PAGE_UP),
        0x51 => Some(KEY_PAGE_DOWN),
        _ => None,
    }
}

/// An ASCII letter, either case.
pub open spec fn is_letter(c: u8) -> bool {
    (0x41 <= c <= 0x5A) || (0x61 <= c <= 0x7A)
}

/// The ASCII control code of a letter (Ctrl-A = 1 .. Ctrl-Z = 26).
pub open spec fn control_code(c: u8) -> u32 {
    if c >= 0x61 { (c - 0x60) as u32 } else { (c - 0x40) as u32 }
}

/// The keyboard decoder's state: which modifiers are held and whether the
/// previous byte was the extended-set prefix.
pub struct Decoder {
    pub shift: bool,
    pub ctrl: bool,
    pub pending_extended: bool,
}

/// The decoder after `feed(scancode)` from `d`, and the key it returns.
pub open spec fn feed_spec(d: Decoder, scancode: u8) -> (Decoder, Option<u32>) {
    let released = scancode >= 0x80;
    let code = (scancode % 0x80) as u8;
    if scancode == EXTENDED_PREFIX {
        (Decoder { pending_extended: true, ..d }, None)
    } else if d.pending_extended {
        (Decoder { pending_extended: false, ..d }, if released { None } else { extended_key_spec(code) })
    } else if code == LEFT_SHIFT || code == RIGHT_SHIFT {
        (Decoder { shift: !released, ..d }, None)
    } else if code == LEFT_CTRL {
        (Decoder { ctrl: !released, ..d }, None)
    } else if released || code >= TABLE_LEN {
        (d, None)
    } else {
        let ascii = if d.shift { SCANCODE_ASCII_SHIFTED@[code as int] } else { SCANCODE_ASCII@[code as int] };
        if ascii == 0 {
            (d, None)
        } else if d.ctrl && is_letter(ascii) {
            (d, Some(control_code(ascii)))
        } else {
            (d, Some(ascii as u32))
        }
    }
}

impl Decoder {
    /// A decoder with no modifier held and no prefix pending.
    pub fn new() -> (r: Self)
        ensures
            r == (Decoder { shift: false, ctrl: false, pending_extended: false }),
    {
        Decoder { shift: false, ctrl: false, pending_extended: false }
    }

    /// Feeds one raw scancode and returns the decoded key, if any (key
    /// releases and unmapped keys give `None`).
    pub fn feed(&mut self, scancode: u8) -> (r: Option<u32>)
        ensures
            (*final(self), r) == feed_spec(*old(self), scancode),
            r matches Some(k) ==> k < 256 || KEY_UP <= k <= KEY_PAGE_DOWN,
    {
        if scancode == EXTENDED_PREFIX {
            self.pending_extended = true;
            return None;
        }
        assert((scancode & 0x80 != 0) == (scancode >= 0x80)) by (bit_vector);
        assert(scancode & 0x7F == scancode % 0x80) by (bit_vector);
        let released = scancode & 0x80 != 0;
        let code = scancode & 0x7F;
        if self.pending_extended {
            self.pending_extended = false;
            return if released { None } else { extended_key(code) };
        }
        if code == LEFT_SHIFT || code == RIGHT_SHIFT {
            self.shift = !released;
            return None;
        }
        if code == LEFT_CTRL {
            self.ctrl = !released;
            return None;
        }
        if released || code as usize >= TABLE_LEN {
            return None;
        }
        let ascii = if self.shift {
            SCANCODE_ASCII_SHIFTED[code as usize]
        } else {
            SCANCODE_ASCII[code as usize]
        };
        if ascii == 0 {
            return None;
        }
        if self.ctrl && ((0x41 <= ascii && ascii <= 0x5A) || (0x61 <= ascii && ascii <= 0x7A)) {
            let upper = if ascii >= 0x61 { ascii - 0x20 } else { ascii };
            return Some((upper - 0x41 + 1) as u32);
        }
        Some(ascii as u32)
    }
}

/// The extended keys of scancode set 1: after the `0xE0` prefix, make
/// code 0x48 is Up (256), 0x50 Down (257), 0x4B Left (258), 0x4D Right
/// (259), 0x47 Home (260), 0x4F End (261), 0x53 Delete (262), 0x49
/// Page Up (263) and 0x51 Page Down (264), whatever modifiers are held; a
/// prefixed release, or any other prefixed code, gives no key; and the
/// prefix itself gives none. Both the mapping function and a decoder fed
/// the prefix and then the code agree with this table.
pub proof fn lemma_extended_keys_are_set_one(d: Decoder, code: u8)
    requires
        code < 0x80,
    ensures
        ({
            let table: Option<u32> = if code == 0x48 {
                Some(256u32)
            } else if code == 0x50 {
                Some(257u32)
            } else if code == 0x4B {
                Some(258u32)
            } else if code == 0x4D {
                Some(259u32)
            } else if code == 0x47 {
                Some(260u32)
            } else if code == 0x4F {
                Some(261u32)
            } else if code == 0x53 {
                Some(262u32)
            } else if code == 0x49 {
                Some(263u32)
            } else if code == 0x51 {
                Some(264u32)
            } else {
                None
            };
            let (d1, k1) = feed_spec(d, 0xE0);
            let (d2, k2) = feed_spec(d1, code);
            let (_, k3) = feed_spec(d1, (code + 0x80) as u8);
            &&& extended_key_spec(code) == table
            &&& k1 is None
            &&& k2 == table
            &&& k3 is None
            &&& d2 == (Decoder { pending_extended: false, ..d })
        }),
{
}

/// The arrow keys in particular: prefix then 0x4B is Left (258), prefix
/// then 0x4D is Right (259), prefix then 0x48 is Up (256), prefix then 0x50
/// is Down (257), from any decoder state.
pub proof fn lemma_arrow_keys(d: Decoder)
    ensures
        feed_spec(feed_spec(d, 0xE0).0, 0x4B).1 == Some(258u32),
        feed_spec(feed_spec(d, 0xE0).0, 0x4D).1 == Some(259u32),
        feed_spec(feed_spec(d, 0xE0).0, 0x48).1 == Some(256u32),
        feed_spec(feed_spec(d, 0xE0).0, 0x50).1 == Some(257u32),
        extended_key_spec(0x4B) == Some(258u32),
        extended_key_spec(0x4D) == Some(259u32),
{
}

/// The main block of scancode set 1, from a decoder with no modifier held
/// and no prefix pending: the top row's make codes 0x02..=0x0B give the
/// digits `1`..`9`, `0`; 0x10..=0x19 give `qwertyuiop`, 0x1E..=0x26
/// `asdfghjkl` and 0x2C..=0x32 `zxcvbnm`; 0x1C is Enter (10), 0x0E
/// Backspace (8), 0x0F Tab (9), 0x01 Escape (27) and 0x39 Space. With Shift
/// held a letter gives its capital, and with Ctrl held its control code
/// (`a` = 1 .. `z` = 26). A release (make code plus 0x80) gives no key.
pub proof fn lemma_main_keys(code: u8)
    requires
        code < 0x80,
    ensures
        ({
            let plain = Decoder { shift: false, ctrl: false, pending_extended: false };
            let shifted = Decoder { shift: true, ctrl: false, pending_extended: false };
            let ctrl = Decoder { shift: false, ctrl: true, pending_extended: false };
            let digits = seq![0x31u8, 0x32, 0x33, 0x34, 0x35, 0x36, 0x37, 0x38, 0x39, 0x30];
            let top = seq![0x71u8, 0x77, 0x65, 0x72, 0x74, 0x79, 0x75, 0x69, 0x6F, 0x70];
            let home = seq![0x61u8, 0x73, 0x64, 0x66, 0x67, 0x68, 0x6A, 0x6B, 0x6C];
            let bottom = seq![0x7Au8, 0x78, 0x63, 0x76, 0x62, 0x6E, 0x6D];
            let letter: Option<u8> = if 0x10 <= code <= 0x19 {
                Some(top[code - 0x10])
            } else if 0x1E <= code <= 0x26 {
                Some(home[code - 0x1E])
            } else if 0x2C <= code <= 0x32 {
                Some(bottom[code - 0x2C])
            } else {
                None
            };
            &&& 0x02 <= code <= 0x0B ==> feed_spec(plain, code).1 == Some(digits[code - 2] as u32)
            &&& letter matches Some(l) ==> {
                &&& feed_spec(plain, code).1 == Some(l as u32)
                &&& feed_spec(shifted, code).1 == Some((l - 0x20) as u32)
                &&& feed_spec(ctrl, code).1 == Some((l - 0x60) as u32)
            }
            &&& code == 0x1C ==> feed_spec(plain, code).1 == Some(10u32)
            &&& code == 0x0E ==> feed_spec(plain, code).1 == Some(8u32)
            &&& code == 0x0F ==> feed_spec(plain, code).1 == Some(9u32)
            &&& code == 0x01 ==> feed_spec(plain, code).1 == Some(27u32)
            &&& code == 0x39 ==> feed_spec(plain, code).1 == Some(0x20u32)
            &&& feed_spec(plain, (code + 0x80) as u8).1 is None
        }),
{
    assert(SCANCODE_ASCII@.len() == 58 && SCANCODE_ASCII_SHIFTED@.len() == 58);
}

} // verus!
