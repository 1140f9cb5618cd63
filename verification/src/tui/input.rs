//! Keystrokes decoded into motions: the count prefix (`5j`), the pending `g`
//! of `gg` and `gr`, and the pending `z` of `zt`/`zz`/`zb`.

use vstd::prelude::*;

verus! {

/// A key, as far as the pane tells keys apart.
#[derive(Clone, Copy, Debug, PartialEq, Eq, Structural)]
pub enum KeyCode {
    Char(char),
    Esc,
    Enter,
    Backspace,
    Tab,
    Up,
    Down,
    PageUp,
    PageDown,
    /// Any key without a meaning here.
    Other,
}

/// A decoded normal-mode command. `usize` payloads are repeat counts; the
/// `Option<usize>` on `First`/`Last` is the optional explicit count of
/// `{n}gg` / `{n}G` (a 1-based item index), `None` meaning the bare motion.
#[derive(Clone, Copy, Debug, PartialEq, Eq, Structural)]
pub enum Motion {
    Down(usize),
    Up(usize),
    First(Option<usize>),
    Last(Option<usize>),
    HalfPageDown,
    HalfPageUp,
    PageDown,
    PageUp,
    /// `H` / `M` / `L` — move the cursor to the top / middle / bottom item of
    /// the current viewport, leaving the view put.
    CursorHigh,
    CursorMiddle,
    CursorLow,
    /// `zt` / `zz` / `zb` — scroll the view so the cursor's item sits at the
    /// top / center / bottom, leaving the cursor on its item.
    ViewTop,
    ViewCenter,
    ViewBottom,
    NextMatch,
    PrevMatch,
    /// `{` / `}` — move the cursor to the previous / next file header.
    PrevFile(usize),
    NextFile(usize),
    /// `Tab` — expand or collapse the types the cursor's item references.
    Expand,
    /// `gr` — show or hide what references the cursor's item.
    Usages,
    /// `Enter` — open the cursor's item in the user's editor.
    Open,
    Quit,
}

/// The pending state between keystrokes: a half-typed count and whether a
/// lone `g` (of `gg`) or `z` (of `zt`/`zz`/`zb`) is waiting for its partner.
#[derive(Clone, Copy, Debug, PartialEq, Eq, Structural)]
pub struct InputState {
    pub count: Option<usize>,
    pub pending_g: bool,
    pub pending_z: bool,
}

/// The state with nothing pending.
pub open spec fn idle() -> InputState {
    InputState { count: None, pending_g: false, pending_z: false }
}

/// What a keypress does: the next state, and the motion it completes.
pub struct Step {
    pub state: InputState,
    pub motion: Option<Motion>,
}

/// Whether `c` is a decimal digit.
pub open spec fn is_digit(c: char) -> bool {
    '0' <= c <= '9'
}

/// Whether the key goes into the count: a digit, but not a leading zero.
pub open spec fn extends_count(state: InputState, code: KeyCode, ctrl: bool) -> bool {
    !ctrl && (code matches KeyCode::Char(c) && is_digit(c) && !(c == '0' && state.count is None))
}

/// The count that the digit `c` makes of `count`, capped at the largest
/// number a count can hold.
pub open spec fn grown_count(count: Option<usize>, c: char) -> usize {
    let before: int = match count {
        Some(n) => n as int,
        None => 0,
    };
    let grown = 10 * before + (c as int - '0' as int);
    if grown > usize::MAX {
        usize::MAX
    } else {
        grown as usize
    }
}

/// The motion that completes a pending `z`.
pub open spec fn z_motion(code: KeyCode, ctrl: bool) -> Option<Motion> {
    if ctrl {
        None
    } else {
        match code {
            KeyCode::Char('t') => Some(Motion::ViewTop),
            KeyCode::Char('z') => Some(Motion::ViewCenter),
            KeyCode::Char('b') => Some(Motion::ViewBottom),
            _ => None,
        }
    }
}

/// The motion of a single key, given the count before it.
pub open spec fn plain_motion(code: KeyCode, ctrl: bool, count: Option<usize>) -> Option<Motion> {
    let times = match count {
        Some(n) => n,
        None => 1,
    };
    if ctrl {
        match code {
            KeyCode::Char('d') => Some(Motion::HalfPageDown),
            KeyCode::Char('u') => Some(Motion::HalfPageUp),
            KeyCode::Char('f') => Some(Motion::PageDown),
            KeyCode::Char('b') => Some(Motion::PageUp),
            _ => None,
        }
    } else {
        match code {
            KeyCode::Char('q') => Some(Motion::Quit),
            KeyCode::Esc => Some(Motion::Quit),
            KeyCode::Char('j') => Some(Motion::Down(times)),
            KeyCode::Down => Some(Motion::Down(times)),
            KeyCode::Char('k') => Some(Motion::Up(times)),
            KeyCode::Up => Some(Motion::Up(times)),
            KeyCode::Char('G') => Some(Motion::Last(count)),
            KeyCode::PageDown => Some(Motion::PageDown),
            KeyCode::PageUp => Some(Motion::PageUp),
            KeyCode::Char('H') => Some(Motion::CursorHigh),
            KeyCode::Char('M') => Some(Motion::CursorMiddle),
            KeyCode::Char('L') => Some(Motion::CursorLow),
            KeyCode::Char('n') => Some(Motion::NextMatch),
            KeyCode::Char('N') => Some(Motion::PrevMatch),
            KeyCode::Char('{') => Some(Motion::PrevFile(times)),
            KeyCode::Char('}') => Some(Motion::NextFile(times)),
            KeyCode::Tab => Some(Motion::Expand),
            KeyCode::Enter => Some(Motion::Open),
            _ => None,
        }
    }
}

/// What a keypress does in `state`.
pub open spec fn step(state: InputState, code: KeyCode, ctrl: bool) -> Step {
    if state.pending_z {
        // A pending `z` consumes exactly the next key.
        Step {
            state: InputState { count: None, pending_z: false, ..state },
            motion: z_motion(code, ctrl),
        }
    } else if extends_count(state, code, ctrl) {
        Step {
            state: InputState { count: Some(grown_count(state.count, code->Char_0)), ..state },
            motion: None,
        }
    } else if !ctrl && code == KeyCode::Char('z') {
        Step { state: InputState { pending_g: false, pending_z: true, ..state }, motion: None }
    } else if !ctrl && code == KeyCode::Char('g') && !state.pending_g {
        Step { state: InputState { pending_g: true, ..state }, motion: None }
    } else if !ctrl && code == KeyCode::Char('g') {
        Step { state: idle(), motion: Some(Motion::First(state.count)) }
    } else if !ctrl && code == KeyCode::Char('r') && state.pending_g {
        Step { state: idle(), motion: Some(Motion::Usages) }
    } else {
        // Any other key ends a dangling `g` and consumes the count.
        Step { state: idle(), motion: plain_motion(code, ctrl, state.count) }
    }
}

impl Default for InputState {
    fn default() -> (state: Self)
        ensures
            state == idle(),
    {
        InputState { count: None, pending_g: false, pending_z: false }
    }
}

impl InputState {
    /// Folds one keypress into the pending state, returning a `Motion` once
    /// one is complete. Returns `None` for the intermediate keys — a count
    /// digit, or the first `g` of `gg`.
    pub fn feed(&mut self, code: KeyCode, ctrl: bool) -> (motion: Option<Motion>)
        ensures
            *final(self) == step(*old(self), code, ctrl).state,
            motion == step(*old(self), code, ctrl).motion,
    {
        if self.pending_z {
            self.pending_z = false;
            self.count = None;
            if ctrl {
                return None;
            }
            return match code {
                KeyCode::Char('t') => Some(Motion::ViewTop),
                KeyCode::Char('z') => Some(Motion::ViewCenter),
                KeyCode::Char('b') => Some(Motion::ViewBottom),
                _ => None,
            };
        }
        if let KeyCode::Char(c) = code {
            // A leading `0` is not a count (vim reserves it for column 0,
            // which has no meaning here); `0` only extends a count already
            // under way.
            if !ctrl && '0' <= c && c <= '9' && !(c == '0' && self.count.is_none()) {
                let digit: usize = (c as u32 - '0' as u32) as usize;
                let before: usize = match self.count {
                    Some(n) => n,
                    None => 0,
                };
                self.count = Some(append_digit(before, digit));
                return None;
            }
        }
        if !ctrl && code == KeyCode::Char('z') {
            self.pending_g = false;
            self.pending_z = true;
            return None;
        }
        if !ctrl && code == KeyCode::Char('g') {
            if self.pending_g {
                self.pending_g = false;
                let count = self.count;
                self.count = None;
                return Some(Motion::First(count));
            }
            self.pending_g = true;
            return None;
        }
        // `gr`: the one non-`gg` completion of a pending `g`.
        if self.pending_g && !ctrl && code == KeyCode::Char('r') {
            self.pending_g = false;
            self.count = None;
            return Some(Motion::Usages);
        }
        // Any other key ends a dangling `g` and consumes the pending count.
        self.pending_g = false;
        let count = self.count;
        self.count = None;
        let times: usize = match count {
            Some(n) => n,
            None => 1,
        };
        if ctrl {
            match code {
                KeyCode::Char('d') => Some(Motion::HalfPageDown),
                KeyCode::Char('u') => Some(Motion::HalfPageUp),
                KeyCode::Char('f') => Some(Motion::PageDown),
                KeyCode::Char('b') => Some(Motion::PageUp),
                _ => None,
            }
        } else {
            match code {
                KeyCode::Char('q') | KeyCode::Esc => Some(Motion::Quit),
                KeyCode::Char('j') | KeyCode::Down => Some(Motion::Down(times)),
                KeyCode::Char('k') | KeyCode::Up => Some(Motion::Up(times)),
                KeyCode::Char('G') => Some(Motion::Last(count)),
                KeyCode::PageDown => Some(Motion::PageDown),
                KeyCode::PageUp => Some(Motion::PageUp),
                KeyCode::Char('H') => Some(Motion::CursorHigh),
                KeyCode::Char('M') => Some(Motion::CursorMiddle),
                KeyCode::Char('L') => Some(Motion::CursorLow),
                KeyCode::Char('n') => Some(Motion::NextMatch),
                KeyCode::Char('N') => Some(Motion::PrevMatch),
                KeyCode::Char('{') => Some(Motion::PrevFile(times)),
                KeyCode::Char('}') => Some(Motion::NextFile(times)),
                KeyCode::Tab => Some(Motion::Expand),
                KeyCode::Enter => Some(Motion::Open),
                _ => None,
            }
        }
    }
}

/// `count` with `digit` appended in decimal, capped.
fn append_digit(count: usize, digit: usize) -> (grown: usize)
    requires
        digit < 10,
    ensures
        grown == if 10 * count + digit > usize::MAX {
            usize::MAX as int
        } else {
            10 * count + digit
        },
{
    match count.checked_mul(10) {
        Some(tens) => tens.saturating_add(digit),
        None => usize::MAX,
    }
}

/// The state after a sequence of keys typed without `Ctrl`.
pub open spec fn after_keys(state: InputState, keys: Seq<KeyCode>) -> InputState
    decreases keys.len(),
{
    if keys.len() == 0 {
        state
    } else {
        step(after_keys(state, keys.drop_last()), keys.last(), false).state
    }
}

/// The keys that type `chars`.
pub open spec fn typed(chars: Seq<char>) -> Seq<KeyCode>
    decreases chars.len(),
{
    if chars.len() == 0 {
        seq![]
    } else {
        typed(chars.drop_last()).push(KeyCode::Char(chars.last()))
    }
}

/// The value of a decimal numeral, capped at the largest count.
pub open spec fn numeral(digits: Seq<char>) -> int
    decreases digits.len(),
{
    if digits.len() == 0 {
        0
    } else {
        let grown = 10 * numeral(digits.drop_last()) + (digits.last() as int - '0' as int);
        if grown > usize::MAX {
            usize::MAX as int
        } else {
            grown
        }
    }
}

/// A completed motion leaves nothing pending.
pub proof fn law_motions_clear_the_state(state: InputState, code: KeyCode, ctrl: bool)
    requires
        !(state.pending_g && state.pending_z),
        step(state, code, ctrl).motion is Some,
    ensures
        step(state, code, ctrl).state == idle(),
{
}

/// `g` and `z` are never both pending.
pub proof fn law_one_prefix_at_a_time(state: InputState, code: KeyCode, ctrl: bool)
    requires
        !(state.pending_g && state.pending_z),
    ensures
        !(step(state, code, ctrl).state.pending_g && step(state, code, ctrl).state.pending_z),
{
}

/// A numeral typed before a motion is its count: digits of which the first is
/// not zero leave their value pending, and the next motion key takes it.
pub proof fn law_numerals_count(digits: Seq<char>)
    requires
        digits.len() > 0,
        digits[0] != '0',
        forall|i: int| 0 <= i < digits.len() ==> is_digit(#[trigger] digits[i]),
    ensures
        0 <= numeral(digits) <= usize::MAX,
        after_keys(idle(), typed(digits)) == (InputState {
            count: Some(numeral(digits) as usize),
            ..idle()
        }),
    decreases digits.len(),
{
    let keys = typed(digits);
    let rest = digits.drop_last();
    assert(keys.drop_last() =~= typed(rest));
    assert(keys.last() == KeyCode::Char(digits.last()));
    if rest.len() > 0 {
        law_numerals_count(rest);
    } else {
        assert(numeral(rest) == 0);
        assert(after_keys(idle(), keys.drop_last()) == idle());
    }
}

/// `z` and the key after it never reach another motion: whatever follows `z`,
/// the state is clear again.
pub proof fn law_z_consumes_one_key(state: InputState, code: KeyCode, ctrl: bool)
    requires
        !state.pending_z,
    ensures
        step(step(state, KeyCode::Char('z'), false).state, code, ctrl).state == idle(),
        step(step(state, KeyCode::Char('z'), false).state, code, ctrl).motion == z_motion(
            code,
            ctrl,
        ),
{
}

} // verus!
