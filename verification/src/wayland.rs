//! A Wayland window: its scale, size and title bar, its keyboard and its pointer's wheel, and
//! which buffer the next frame goes in.

use vstd::prelude::*;

use crate::backend::{Button, Mods};
use crate::xkb::{meaning, Xkb};

verus! {

/// Linux input codes for the mouse buttons.
pub const BTN_LEFT: u32 = 0x110;

pub const BTN_RIGHT: u32 = 0x111;

/// The thumb button, and the one some mice report for it instead.
pub const BTN_SIDE: u32 = 0x113;

pub const BTN_BACK: u32 = 0x116;

/// The most wheel notches taken from one report.
pub const MOST_NOTCHES: u32 = 20;

/// The most buffers a window's frames go through.
pub const MAX_BUFFERS: usize = 4;

/// The state of a toplevel that says it is maximized.
pub const MAXIMIZED: u32 = 1;

/// An output, and how many pixels it has to a point.
#[derive(Debug, Clone, Copy, PartialEq, Eq, Structural)]
pub struct Output {
    pub id: u32,
    pub scale: i32,
}

/// What the compositor has said of the window.
pub struct Surface {
    /// Every output; and the ones the surface is on.
    pub outputs: Vec<Output>,
    pub on_outputs: Vec<u32>,
    /// The scale the compositor prefers, which beats guessing from the outputs.
    pub preferred_scale: Option<i32>,
    /// The size the last configure of the toplevel asked for, until its surface's.
    pub pending: Option<(i32, i32)>,
    pub configured: bool,
    /// The window's size in points, and its scale.
    pub size: (i32, i32),
    pub scale: i32,
    pub decorated: bool,
    pub maximized: bool,
}

/// Whether a scale is the greatest of some.
pub open spec fn is_greatest(scale: int, scales: Set<int>) -> bool {
    scales.contains(scale) && forall|other: int| #[trigger] scales.contains(other) ==> other <= scale
}

impl Surface {
    /// The scales of the outputs the surface is on.
    pub open spec fn scales_on(self) -> Set<int> {
        Set::new(
            |scale: int|
                exists|i: int|
                    0 <= i < self.outputs.len() && self.on_outputs@.contains(
                        (#[trigger] self.outputs@[i]).id,
                    ) && self.outputs@[i].scale == scale,
        )
    }

    /// The scales of every output.
    pub open spec fn scales(self) -> Set<int> {
        Set::new(
            |scale: int|
                exists|i: int|
                    0 <= i < self.outputs.len() && (#[trigger] self.outputs@[i]).scale == scale,
        )
    }

    /// Whether the window should draw at this scale: what the compositor prefers, else the
    /// largest of the outputs it is on, else the largest anywhere, and never less than 1.
    pub open spec fn is_wanted_scale(self, scale: int) -> bool {
        match self.preferred_scale {
            Some(preferred) => scale == at_least_one(preferred as int),
            None => if exists|s: int| #[trigger] self.scales_on().contains(s) {
                exists|s: int| #[trigger]
                    is_greatest(s, self.scales_on()) && scale == at_least_one(s)
            } else if exists|s: int| #[trigger] self.scales().contains(s) {
                exists|s: int| #[trigger]
                    is_greatest(s, self.scales()) && scale == at_least_one(s)
            } else {
                scale == 1
            },
        }
    }
}

pub open spec fn at_least_one(n: int) -> int {
    if n > 1 {
        n
    } else {
        1
    }
}

fn is_on(on: &Vec<u32>, id: u32) -> (is: bool)
    ensures
        is == on@.contains(id),
{
    let mut i: usize = 0;
    while i < on.len()
        invariant
            i <= on.len(),
            forall|j: int| 0 <= j < i ==> on@[j] != id,
        decreases on.len() - i,
    {
        if on[i] == id {
            return true;
        }
        i += 1;
    }
    false
}

impl Surface {
    fn greatest_on(&self) -> (greatest: Option<i32>)
        ensures
            match greatest {
                Some(scale) => is_greatest(scale as int, self.scales_on()),
                None => forall|s: int| !#[trigger] self.scales_on().contains(s),
            },
    {
        let mut greatest: Option<i32> = None;
        let mut i: usize = 0;
        while i < self.outputs.len()
            invariant
                i <= self.outputs.len(),
                match greatest {
                    Some(scale) => self.scales_on().contains(scale as int) && forall|j: int|
                        0 <= j < i && self.on_outputs@.contains((#[trigger] self.outputs@[j]).id)
                            ==> self.outputs@[j].scale <= scale,
                    None => forall|j: int|
                        0 <= j < i ==> !self.on_outputs@.contains(
                            (#[trigger] self.outputs@[j]).id,
                        ),
                },
            decreases self.outputs.len() - i,
        {
            let output = self.outputs[i];
            if is_on(&self.on_outputs, output.id) {
                assert(self.scales_on().contains(output.scale as int)) by {
                    assert(self.outputs@[i as int].scale == output.scale);
                }
                let greater = match greatest {
                    Some(scale) => output.scale > scale,
                    None => true,
                };
                if greater {
                    greatest = Some(output.scale);
                }
            }
            i += 1;
        }
        greatest
    }

    fn greatest_of_all(&self) -> (greatest: Option<i32>)
        ensures
            match greatest {
                Some(scale) => is_greatest(scale as int, self.scales()),
                None => forall|s: int| !#[trigger] self.scales().contains(s),
            },
    {
        let mut greatest: Option<i32> = None;
        let mut i: usize = 0;
        while i < self.outputs.len()
            invariant
                i <= self.outputs.len(),
                match greatest {
                    Some(scale) => self.scales().contains(scale as int) && forall|j: int|
                        0 <= j < i ==> (#[trigger] self.outputs@[j]).scale <= scale,
                    None => i == 0,
                },
            decreases self.outputs.len() - i,
        {
            let output = self.outputs[i];
            assert(self.scales().contains(output.scale as int)) by {
                assert(self.outputs@[i as int].scale == output.scale);
            }
            let greater = match greatest {
                Some(scale) => output.scale > scale,
                None => true,
            };
            if greater {
                greatest = Some(output.scale);
            }
            i += 1;
        }
        greatest
    }

    /// The scale the window should draw at.
    pub fn wanted_scale(&self) -> (scale: i32)
        ensures
            self.is_wanted_scale(scale as int),
            scale >= 1,
    {
        let found: Option<i32> = match self.preferred_scale {
            Some(preferred) => Some(preferred),
            None => match self.greatest_on() {
                Some(scale) => Some(scale),
                None => self.greatest_of_all(),
            },
        };
        match found {
            Some(scale) => if scale > 1 {
                scale
            } else {
                1
            },
            None => 1,
        }
    }

    /// Draw at the scale that is wanted. Returns whether the window's size is to be reported,
    /// which it is not before the first configure.
    pub fn rescale(&mut self) -> (report: bool)
        ensures
            old(self).is_wanted_scale(final(self).scale as int),
            *final(self) == (Surface { scale: final(self).scale, ..*old(self) }),
            report == (final(self).scale != old(self).scale && old(self).configured),
    {
        let scale: i32 = self.wanted_scale();
        let changed = self.scale != scale;
        self.scale = scale;
        changed && self.configured
    }

    /// The compositor asks the toplevel for a size; `states` say among others whether it is
    /// maximized.
    pub fn toplevel_configure(&mut self, width: i32, height: i32, states: &Vec<u32>)
        ensures
            *final(self) == (Surface {
                pending: Some((width, height)),
                maximized: states@.contains(MAXIMIZED),
                ..*old(self)
            }),
    {
        self.pending = Some((width, height));
        self.maximized = is_on(states, MAXIMIZED);
    }

    /// The compositor's configure is complete: the size it asked for, if it did, is the
    /// window's. Returns whether it is to be reported: when it changed, and the first time.
    pub fn surface_configure(&mut self) -> (report: bool)
        ensures
            final(self).configured,
            final(self).pending is None,
            final(self).size == match old(self).pending {
                Some((w, h)) => if w > 0 && h > 0 {
                    (w, h)
                } else {
                    old(self).size
                },
                None => old(self).size,
            },
            report == (!old(self).configured || final(self).size != old(self).size),
            report ==> (Surface {
                configured: true,
                pending: None,
                size: final(self).size,
                ..*old(self)
            }).is_wanted_scale(final(self).scale as int),
            !report ==> final(self).scale == old(self).scale,
            final(self).outputs == old(self).outputs,
            final(self).on_outputs == old(self).on_outputs,
            final(self).preferred_scale == old(self).preferred_scale,
            final(self).decorated == old(self).decorated,
            final(self).maximized == old(self).maximized,
    {
        let first = !self.configured;
        self.configured = true;
        let mut changed = false;
        if let Some((w, h)) = self.pending {
            if w > 0 && h > 0 {
                changed = w != self.size.0 || h != self.size.1;
                self.size = (w, h);
            }
        }
        self.pending = None;
        if changed || first {
            self.scale = self.wanted_scale();
            true
        } else {
            false
        }
    }

    /// The compositor says whether it draws the title bar. Returns whether that is news.
    pub fn decoration_configure(&mut self, server_side: bool) -> (news: bool)
        ensures
            *final(self) == (Surface { decorated: server_side, ..*old(self) }),
            news == (server_side != old(self).decorated),
    {
        let news = self.decorated != server_side;
        self.decorated = server_side;
        news
    }

    /// The surface is now on an output too.
    pub fn enter_output(&mut self, id: u32)
        ensures
            final(self).on_outputs@ == old(self).on_outputs@.push(id),
            *final(self) == (Surface { on_outputs: final(self).on_outputs, ..*old(self) }),
    {
        self.on_outputs.push(id);
    }

    /// The surface is no longer on an output.
    pub fn leave_output(&mut self, id: u32)
        ensures
            final(self).on_outputs@ == old(self).on_outputs@.filter(|on: u32| on != id),
            *final(self) == (Surface { on_outputs: final(self).on_outputs, ..*old(self) }),
    {
        let ghost before = self.on_outputs@;
        let ghost other = |on: u32| on != id;
        let mut kept: Vec<u32> = Vec::new();
        let mut i: usize = 0;
        assert(before.take(0).filter(other) =~= Seq::empty()) by {
            reveal(Seq::filter);
        }
        while i < self.on_outputs.len()
            invariant
                i <= self.on_outputs.len(),
                *self == *old(self),
                before == self.on_outputs@,
                other == (|on: u32| on != id),
                kept@ == before.take(i as int).filter(other),
            decreases self.on_outputs.len() - i,
        {
            proof {
                reveal(Seq::filter);
                assert(before.take(i + 1).drop_last() =~= before.take(i as int));
                assert(before.take(i + 1).last() == before[i as int]);
            }
            if self.on_outputs[i] != id {
                kept.push(self.on_outputs[i]);
            }
            i += 1;
        }
        assert(before.take(before.len() as int) =~= before);
        self.on_outputs = kept;
    }

    /// An output says how many pixels it has to a point.
    pub fn output_scale(&mut self, id: u32, factor: i32)
        ensures
            final(self).outputs.len() == old(self).outputs.len(),
            forall|i: int|
                0 <= i < old(self).outputs.len() ==> #[trigger] final(self).outputs@[i]
                    == if old(self).outputs@[i].id == id {
                    Output { id, scale: factor }
                } else {
                    old(self).outputs@[i]
                },
            *final(self) == (Surface { outputs: final(self).outputs, ..*old(self) }),
    {
        let mut i: usize = 0;
        while i < self.outputs.len()
            invariant
                i <= self.outputs.len(),
                self.outputs.len() == old(self).outputs.len(),
                *self == (Surface { outputs: self.outputs, ..*old(self) }),
                forall|j: int|
                    0 <= j < self.outputs.len() ==> #[trigger] self.outputs@[j] == if j < i
                        && old(self).outputs@[j].id == id {
                        Output { id, scale: factor }
                    } else {
                        old(self).outputs@[j]
                    },
            decreases self.outputs.len() - i,
        {
            if self.outputs[i].id == id {
                self.outputs[i] = Output { id, scale: factor };
            }
            i += 1;
        }
    }
}

/// The keyboard: its keymap, the modifiers held, and how keys repeat.
pub struct Keyboard {
    pub xkb: Xkb,
    pub shift: bool,
    pub control: bool,
    pub lock: bool,
    /// How many times a second a held key repeats, and after how many milliseconds.
    pub repeat: (i32, i32),
    /// Counts presses, releases and losses of the keyboard, so that a repeating key knows when
    /// it is no longer held.
    pub held: u64,
}

/// A key press, and how it repeats while it is held.
#[derive(Debug, Clone, Copy, PartialEq, Eq)]
pub struct Press {
    pub keysym: u32,
    pub mods: Mods,
    /// The count for which the key is still held.
    pub generation: u64,
    /// After how many milliseconds it repeats, and then how many apart, if it does.
    pub repeat: Option<(u64, u64)>,
}

/// How a key repeats: after how many milliseconds, and then how many apart.
pub open spec fn repeat_times(rate: i32, delay: i32) -> Option<(u64, u64)> {
    if rate <= 0 {
        None
    } else {
        Some(
            (
                if delay > 0 {
                    delay as u64
                } else {
                    0
                },
                if 1000int / (rate as int) > 10 {
                    (1000int / (rate as int)) as u64
                } else {
                    10
                },
            ),
        )
    }
}

impl Keyboard {
    /// A keyboard of which nothing is known.
    pub fn new() -> (keyboard: Keyboard)
        ensures
            keyboard.xkb.levels@ == Map::<u32, (u32, u32)>::empty(),
            !keyboard.shift,
            !keyboard.control,
            !keyboard.lock,
            keyboard.repeat == (25i32, 400i32),
            keyboard.held == 0,
    {
        Keyboard {
            xkb: Xkb::empty(),
            shift: false,
            control: false,
            lock: false,
            repeat: (25, 400),
            held: 0,
        }
    }

    /// The modifiers held.
    pub fn mods(&self) -> (mods: Mods)
        ensures
            mods == (Mods { shift: self.shift, control: self.control }),
    {
        Mods { shift: self.shift, control: self.control }
    }

    /// The modifiers changed. The real ones come in a fixed order: Shift, Lock, Control.
    pub fn modifiers(&mut self, depressed: u32, latched: u32, locked: u32)
        ensures
            *final(self) == (Keyboard {
                shift: (depressed | latched | locked) & 1 != 0,
                lock: (depressed | latched | locked) & 2 != 0,
                control: (depressed | latched | locked) & 4 != 0,
                ..*old(self)
            }),
    {
        let mods: u32 = depressed | latched | locked;
        self.shift = mods & 1 != 0;
        self.lock = mods & 2 != 0;
        self.control = mods & 4 != 0;
    }

    /// How keys repeat changed.
    pub fn repeat_info(&mut self, rate: i32, delay: i32)
        ensures
            *final(self) == (Keyboard { repeat: (rate, delay), ..*old(self) }),
    {
        self.repeat = (rate, delay);
    }

    /// The window lost the keyboard: no key is held any more.
    pub fn leave(&mut self)
        requires
            old(self).held < u64::MAX,
        ensures
            *final(self) == (Keyboard { held: (old(self).held + 1) as u64, ..*old(self) }),
    {
        self.held = self.held + 1;
    }

    /// A key was pressed or released. A press means something or nothing; either way no key
    /// held before repeats any more.
    pub fn key(&mut self, evdev: u32, pressed: bool) -> (press: Option<Press>)
        requires
            old(self).held < u64::MAX,
            evdev <= u32::MAX - 8,
        ensures
            *final(self) == (Keyboard { held: (old(self).held + 1) as u64, ..*old(self) }),
            press == if pressed {
                match meaning(old(self).xkb.levels@, evdev, old(self).shift, old(self).lock) {
                    Some(keysym) => Some(
                        Press {
                            keysym,
                            mods: Mods { shift: old(self).shift, control: old(self).control },
                            generation: (old(self).held + 1) as u64,
                            repeat: repeat_times(old(self).repeat.0, old(self).repeat.1),
                        },
                    ),
                    None => None,
                }
            } else {
                None
            },
    {
        self.held = self.held + 1;
        if !pressed {
            return None;
        }
        match self.xkb.keysym(evdev, self.shift, self.lock) {
            Some(keysym) => {
                let (rate, delay): (i32, i32) = self.repeat;
                let repeat: Option<(u64, u64)> = if rate <= 0 {
                    None
                } else {
                    let apart: i32 = 1000 / rate;
                    Some(
                        (
                            if delay > 0 {
                                delay as u64
                            } else {
                                0
                            },
                            if apart > 10 {
                                apart as u64
                            } else {
                                10
                            },
                        ),
                    )
                };
                Some(Press { keysym, mods: self.mods(), generation: self.held, repeat })
            },
            None => None,
        }
    }
}

/// A key that is let go, or that another follows, never repeats again.
pub proof fn a_released_key_stops_repeating(before: Keyboard, after: Keyboard, generation: u64)
    requires
        before.held < u64::MAX,
        generation <= before.held,
        after == (Keyboard { held: (before.held + 1) as u64, ..before }),
    ensures
        after.held != generation,
{
}

/// The button of a Linux input code.
pub fn button_of(code: u32) -> (button: Button)
    ensures
        button == if code == BTN_LEFT {
            Button::Left
        } else if code == BTN_RIGHT {
            Button::Right
        } else if code == BTN_SIDE || code == BTN_BACK {
            Button::Back
        } else {
            Button::Other
        },
{
    if code == BTN_LEFT {
        Button::Left
    } else if code == BTN_RIGHT {
        Button::Right
    } else if code == BTN_SIDE || code == BTN_BACK {
        Button::Back
    } else {
        Button::Other
    }
}

/// The pointer's wheel: whether this frame gave steps, so that smooth values are left alone.
#[derive(Debug, Clone, Copy, PartialEq, Eq, Structural)]
pub struct Wheel {
    pub discrete_seen: bool,
}

/// Wheel notches: which button, and how often.
pub open spec fn notches(steps: int) -> (Button, int) {
    (
        if steps > 0 {
            Button::WheelDown
        } else {
            Button::WheelUp
        },
        if -(MOST_NOTCHES as int) <= steps <= MOST_NOTCHES {
            if steps >= 0 {
                steps
            } else {
                -steps
            }
        } else {
            MOST_NOTCHES as int
        },
    )
}

/// `steps` wheel notches, down when positive: which button, and how often.
pub fn wheel(steps: i32) -> (turns: (Button, u32))
    ensures
        (turns.0, turns.1 as int) == notches(steps as int),
{
    let button = if steps > 0 {
        Button::WheelDown
    } else {
        Button::WheelUp
    };
    if steps > 20 || steps < -20 {
        (button, MOST_NOTCHES)
    } else if steps >= 0 {
        (button, steps as u32)
    } else {
        (button, (0 - steps) as u32)
    }
}

impl Wheel {
    /// Whole steps of the wheel.
    pub fn discrete(&mut self, steps: i32) -> (turns: (Button, u32))
        ensures
            final(self).discrete_seen,
            (turns.0, turns.1 as int) == notches(steps as int),
    {
        self.discrete_seen = true;
        wheel(steps)
    }

    /// Parts of a step of the wheel, 120 to each.
    pub fn value120(&mut self, value: i32) -> (turns: (Button, u32))
        ensures
            final(self).discrete_seen,
            (turns.0, turns.1 as int) == notches(
                if value >= 0 {
                    value as int / 120
                } else {
                    -(-(value as int) / 120)
                },
            ),
    {
        self.discrete_seen = true;
        if value >= 0 {
            wheel(value / 120)
        } else {
            let part: i64 = (0 - value as i64) / 120;
            wheel((0 - part) as i32)
        }
    }

    /// Whether a smooth value counts: not in a frame that gave steps.
    pub fn takes_smooth(&self) -> (takes: bool)
        ensures
            takes == !self.discrete_seen,
    {
        !self.discrete_seen
    }

    /// The frame is over.
    pub fn frame(&mut self)
        ensures
            !final(self).discrete_seen,
    {
        self.discrete_seen = false;
    }
}

/// Which buffer the next frame goes in.
#[derive(Debug, Clone, Copy, PartialEq, Eq, Structural)]
pub enum NextBuffer {
    /// One that the compositor has released.
    Free(usize),
    /// One more, and the oldest where there cannot be.
    Another,
    /// The oldest.
    Oldest,
}

/// Which buffer the next frame goes in: the first that the compositor has released; when it
/// still holds every one, another, up to [`MAX_BUFFERS`]; past that the oldest, which a
/// compositor that slow will not notice.
pub fn next_buffer(busy: &Vec<bool>) -> (next: NextBuffer)
    ensures
        match busy@.index_of_first(false) {
            Some(at) => next is Free && next->Free_0 == at,
            None => next == if busy.len() < MAX_BUFFERS {
                NextBuffer::Another
            } else {
                NextBuffer::Oldest
            },
        },
{
    let mut i: usize = 0;
    while i < busy.len()
        invariant
            i <= busy.len(),
            forall|j: int| 0 <= j < i ==> busy@[j] != false,
        decreases busy.len() - i,
    {
        if !busy[i] {
            proof {
                crate::names::first_at(busy@, false, i as int);
            }
            return NextBuffer::Free(i);
        }
        i += 1;
    }
    proof {
        crate::names::first_nowhere(busy@, false);
    }
    if busy.len() < MAX_BUFFERS {
        NextBuffer::Another
    } else {
        NextBuffer::Oldest
    }
}

/// The bytes of a keymap that the compositor sent: up to the first that is 0.
pub fn keymap_bytes(sent: &[u8]) -> (bytes: Vec<u8>)
    ensures
        bytes@ == match sent@.index_of_first(0u8) {
            Some(end) => sent@.take(end),
            None => sent@,
        },
{
    let mut bytes: Vec<u8> = Vec::new();
    let mut i: usize = 0;
    while i < sent.len()
        invariant
            i <= sent.len(),
            bytes@ =~= sent@.take(i as int),
            forall|j: int| 0 <= j < i ==> sent@[j] != 0u8,
        decreases sent.len() - i,
    {
        if sent[i] == 0 {
            proof {
                crate::names::first_at(sent@, 0u8, i as int);
            }
            return bytes;
        }
        bytes.push(sent[i]);
        i += 1;
    }
    proof {
        crate::names::first_nowhere(sent@, 0u8);
    }
    assert(bytes@ =~= sent@);
    bytes
}

/// The wheel turns down for a positive number of steps and up for a negative one, as many notches as
/// steps and never too many.
pub proof fn the_wheel_turns_as_many_notches(steps: int)
    ensures
        steps > 0 ==> notches(steps).0 == Button::WheelDown,
        steps < 0 ==> notches(steps).0 == Button::WheelUp,
        -20 <= steps <= 20 ==> notches(steps).1 == if steps >= 0 {
            steps
        } else {
            -steps
        },
        steps > 20 || steps < -20 ==> notches(steps).1 == 20,
        notches(steps).1 == notches(-steps).1,
{
}

/// A held key repeats at the rate asked for, no faster than a hundred times a second, after the
/// delay asked for; at a rate of nothing it does not.
pub proof fn a_held_key_repeats_at_its_rate(rate: i32, delay: i32)
    ensures
        repeat_times(rate, delay) is None <==> rate <= 0,
        rate > 0 ==> {
            let (after, apart) = repeat_times(rate, delay)->0;
            &&& delay >= 0 ==> after == delay
            &&& delay < 0 ==> after == 0
            &&& apart >= 10
            &&& rate <= 100 ==> apart * rate <= 1000 < (apart + 1) * rate
            &&& rate > 100 ==> apart == 10
        },
{
    if rate > 0 {
        vstd::arithmetic::div_mod::lemma_fundamental_div_mod(1000, rate as int);
        let apart = 1000int / (rate as int);
        assert(apart * rate <= 1000 < (apart + 1) * rate) by (nonlinear_arith)
            requires
                1000 == rate * apart + 1000int % (rate as int),
                0 <= 1000int % (rate as int) < rate,
        ;
        if rate <= 100 {
            assert(apart >= 10) by (nonlinear_arith)
                requires
                    1000 < (apart + 1) * rate,
                    0 < rate <= 100,
            ;
        } else {
            assert(apart < 10) by (nonlinear_arith)
                requires
                    apart * rate <= 1000,
                    rate > 100,
            ;
        }
    }
}

/// The scale is what the compositor prefers, where it says so; else the greatest of the outputs that
/// the window is on, and never less than one.
pub proof fn the_scale_is_that_of_the_finest_output(surface: Surface, scale: int, i: int)
    requires
        surface.is_wanted_scale(scale),
    ensures
        scale >= 1,
        surface.preferred_scale is Some && surface.preferred_scale->0 >= 1 ==> scale
            == surface.preferred_scale->0,
        surface.preferred_scale is None && 0 <= i < surface.outputs.len()
            && surface.on_outputs@.contains(surface.outputs@[i].id) ==> scale
            >= surface.outputs@[i].scale && (scale == 1 || exists|j: int|
            0 <= j < surface.outputs.len() && surface.on_outputs@.contains(
                (#[trigger] surface.outputs@[j]).id,
            ) && surface.outputs@[j].scale == scale),
{
    if surface.preferred_scale is None && 0 <= i < surface.outputs.len()
        && surface.on_outputs@.contains(surface.outputs@[i].id) {
        let its = surface.outputs@[i].scale as int;
        assert(surface.scales_on().contains(its));
        let s = choose|s: int| #[trigger]
            is_greatest(s, surface.scales_on()) && scale == at_least_one(s);
        assert(surface.scales_on().contains(s));
    }
}

} // verus!
