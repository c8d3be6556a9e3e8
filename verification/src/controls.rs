use vstd::prelude::*;
use crate::numpy::{decimal, digits_value, lemma_decimal_digits, lemma_decimal_value, push_decimal};
use crate::text::{push_str, string_from_chars};

verus! {

/// Fastest simulation speed, in solver steps per frame.
pub const MAX_WATER_SPEED: u32 = 64;

/// Whether the next click on the play button speeds up or slows down.
#[derive(Debug, Clone, Copy, PartialEq, Eq)]
pub enum SpeedDirection {
    Increasing,
    Decreasing,
}

/// What the controls of the simulation show and how fast it runs.
#[derive(Debug, Clone, Copy, PartialEq, Eq)]
pub struct GuiState {
    pub show_velocities: bool,
    pub show_water: bool,
    /// Solver steps per frame; `0` is paused.
    pub water_speed: u32,
    /// whether or not to increase speed when play button is clicked
    pub speed_direction: SpeedDirection,
}

/// The state of a button under the pointer.
#[derive(Debug, Clone, Copy, PartialEq, Eq)]
pub enum Interaction {
    Clicked,
    Hovered,
    /// Neither hovered nor clicked.
    Idle,
}

/// The colour a button is painted in.
#[derive(Debug, Clone, Copy, PartialEq, Eq)]
pub enum ButtonColor {
    Normal,
    Hover,
    Pressed,
}

impl Default for GuiState {
    fn default() -> (r: Self)
        ensures
            r == (GuiState {
                show_velocities: false,
                show_water: true,
                water_speed: 0,
                speed_direction: SpeedDirection::Increasing,
            }),
    {
        GuiState {
            show_velocities: false,
            show_water: true,
            water_speed: 0,
            speed_direction: SpeedDirection::Increasing,
        }
    }
}

/// The speeds the play and pause buttons move between: paused, or a power
/// of two up to `MAX_WATER_SPEED`.
pub open spec fn valid_speed(s: u32) -> bool {
    s == 0 || s == 1 || s == 2 || s == 4 || s == 8 || s == 16 || s == 32 || s == 64
}

/// The state after a click on the play button: the speed doubles (from a
/// pause, it becomes `1`) until doubling would pass `MAX_WATER_SPEED`; then
/// the direction turns and the speed halves, down to `1`, where it turns
/// again.
pub open spec fn play_click(s: GuiState) -> GuiState {
    match s.speed_direction {
        SpeedDirection::Increasing => {
            let doubled: int = if s.water_speed * 2 > 1 {
                s.water_speed * 2
            } else {
                1
            };
            if doubled > MAX_WATER_SPEED {
                GuiState {
                    speed_direction: SpeedDirection::Decreasing,
                    water_speed: s.water_speed / 2,
                    ..s
                }
            } else {
                GuiState { water_speed: doubled as u32, ..s }
            }
        },
        SpeedDirection::Decreasing => {
            if s.water_speed != 1 && s.water_speed != 0 {
                GuiState {
                    water_speed: if s.water_speed / 2 > 1 {
                        s.water_speed / 2
                    } else {
                        1
                    },
                    ..s
                }
            } else {
                GuiState {
                    speed_direction: SpeedDirection::Increasing,
                    water_speed: (s.water_speed * 2) as u32,
                    ..s
                }
            }
        },
    }
}

/// The state after a click on the pause button: a running simulation
/// pauses, a paused one runs at speed `1`.
pub open spec fn pause_click(s: GuiState) -> GuiState {
    GuiState {
        water_speed: if s.water_speed >= 1 {
            0
        } else {
            1
        },
        ..s
    }
}

/// The strongest of several interactions: a click over a hover over none.
pub open spec fn strongest(interactions: Seq<Interaction>) -> Interaction {
    if exists|i: int| 0 <= i < interactions.len() && interactions[i] == Interaction::Clicked {
        Interaction::Clicked
    } else if exists|i: int|
        0 <= i < interactions.len() && interactions[i] == Interaction::Hovered {
        Interaction::Hovered
    } else {
        Interaction::Idle
    }
}

/// Combines the interactions reported for the parts of one button.
pub fn strongest_interaction(interactions: &[Interaction]) -> (r: Interaction)
    ensures
        r == strongest(interactions@),
{
    let mut acc = Interaction::Idle;
    let mut i: usize = 0;
    while i < interactions.len()
        invariant
            i <= interactions@.len(),
            acc == strongest(interactions@.take(i as int)),
        decreases interactions@.len() - i,
    {
        let x = interactions[i];
        let ghost before = interactions@.take(i as int);
        let ghost after = interactions@.take(i + 1);
        proof {
            assert(after == before.push(x));
            assert forall|j: int| 0 <= j < before.len() implies after[j] == before[j] by {}
            assert(after[i as int] == x);
        }
        acc = match acc {
            Interaction::Clicked => Interaction::Clicked,
            Interaction::Hovered => match x {
                Interaction::Clicked => Interaction::Clicked,
                Interaction::Hovered => Interaction::Hovered,
                Interaction::Idle => Interaction::Hovered,
            },
            Interaction::Idle => x,
        };
        proof {
            if acc == Interaction::Clicked {
                if x == Interaction::Clicked {
                    assert(after[i as int] == Interaction::Clicked);
                } else {
                    let w = choose|j: int| 0 <= j < before.len() && before[j] == Interaction::Clicked;
                    assert(after[w] == Interaction::Clicked);
                }
            }
            if acc == Interaction::Hovered {
                if x == Interaction::Hovered {
                    assert(after[i as int] == Interaction::Hovered);
                } else {
                    let w = choose|j: int| 0 <= j < before.len() && before[j] == Interaction::Hovered;
                    assert(after[w] == Interaction::Hovered);
                }
            }
        }
        i = i + 1;
    }
    proof {
        assert(interactions@.take(interactions@.len() as int) == interactions@);
    }
    acc
}

impl GuiState {
    /// Handles the play button: speed change on a click and the colour the
    /// button takes, where it takes one.
    pub fn play_button(&mut self, interaction: Option<Interaction>) -> (color: Option<ButtonColor>)
        requires
            old(self).speed_direction == SpeedDirection::Increasing ==> old(self).water_speed
                <= u32::MAX / 2,
        ensures
            interaction == Some(Interaction::Clicked) ==> *final(self) == play_click(*old(self))
                && color == Some(ButtonColor::Pressed),
            interaction != Some(Interaction::Clicked) ==> *final(self) == *old(self),
            interaction == Some(Interaction::Clicked) ==> {
                let (o, f) = (*old(self), *final(self));
                &&& f.show_velocities == o.show_velocities && f.show_water == o.show_water
                &&& o.speed_direction == SpeedDirection::Increasing && o.water_speed == 0 ==> f.water_speed
                    == 1 && f.speed_direction == SpeedDirection::Increasing
                &&& o.speed_direction == SpeedDirection::Increasing && 1 <= o.water_speed <= 32
                    ==> f.water_speed == 2 * o.water_speed && f.speed_direction
                    == SpeedDirection::Increasing
                &&& o.speed_direction == SpeedDirection::Increasing && o.water_speed > 32
                    ==> f.water_speed == o.water_speed / 2 && f.speed_direction
                    == SpeedDirection::Decreasing
                &&& o.speed_direction == SpeedDirection::Decreasing && o.water_speed >= 2
                    ==> f.water_speed == o.water_speed / 2 && f.speed_direction
                    == SpeedDirection::Decreasing
                &&& o.speed_direction == SpeedDirection::Decreasing && o.water_speed <= 1
                    ==> f.water_speed == 2 * o.water_speed && f.speed_direction
                    == SpeedDirection::Increasing
            },
            interaction == Some(Interaction::Hovered) ==> color == Some(ButtonColor::Hover),
            (interaction is None || interaction == Some(Interaction::Idle)) ==> color == (if old(
                self,
            ).water_speed == 0 {
                Some(ButtonColor::Normal)
            } else {
                None
            }),
    {
        let mut color = if self.water_speed == 0 {
            Some(ButtonColor::Normal)
        } else {
            None
        };
        match interaction {
            Some(Interaction::Clicked) => {
                let mut new_speed;
                match self.speed_direction {
                    SpeedDirection::Increasing => {
                        new_speed = if self.water_speed * 2 > 1 {
                            self.water_speed * 2
                        } else {
                            1
                        };
                        if new_speed > MAX_WATER_SPEED {
                            self.speed_direction = SpeedDirection::Decreasing;
                            new_speed = self.water_speed / 2;
                        }
                    },
                    SpeedDirection::Decreasing => {
                        if self.water_speed != 1 && self.water_speed != 0 {
                            new_speed = if self.water_speed / 2 > 1 {
                                self.water_speed / 2
                            } else {
                                1
                            };
                        } else {
                            self.speed_direction = SpeedDirection::Increasing;
                            new_speed = self.water_speed * 2;
                        }
                    },
                }
                self.water_speed = new_speed;
                color = Some(ButtonColor::Pressed);
            },
            Some(Interaction::Hovered) => {
                color = Some(ButtonColor::Hover);
            },
            _ => {},
        }
        color
    }

    /// Handles the pause button: on a click a running simulation pauses and
    /// a paused one runs at speed `1`; gives the colour the button takes.
    pub fn pause_button(&mut self, interaction: Interaction) -> (color: ButtonColor)
        ensures
            interaction == Interaction::Clicked ==> *final(self) == pause_click(*old(self)),
            interaction == Interaction::Clicked ==> final(self).water_speed == (if old(
                self,
            ).water_speed >= 1 {
                0u32
            } else {
                1u32
            }) && final(self).speed_direction == old(self).speed_direction
                && final(self).show_velocities == old(self).show_velocities
                && final(self).show_water == old(self).show_water,
            interaction != Interaction::Clicked ==> *final(self) == *old(self),
            color == (match interaction {
                Interaction::Clicked => if old(self).water_speed >= 1 {
                    ButtonColor::Pressed
                } else {
                    ButtonColor::Hover
                },
                Interaction::Hovered => ButtonColor::Hover,
                Interaction::Idle => if old(self).water_speed >= 1 {
                    ButtonColor::Normal
                } else {
                    ButtonColor::Pressed
                },
            }),
    {
        match interaction {
            Interaction::Clicked => {
                if self.water_speed >= 1 {
                    self.water_speed = 0;
                    ButtonColor::Pressed
                } else {
                    self.water_speed = 1;
                    ButtonColor::Hover
                }
            },
            Interaction::Hovered => ButtonColor::Hover,
            Interaction::Idle => {
                if self.water_speed >= 1 {
                    ButtonColor::Normal
                } else {
                    ButtonColor::Pressed
                }
            },
        }
    }

    /// The label that shows the speed: `Paused`, or the speed followed by `x`.
    pub fn speed_label(&self) -> (r: String)
        ensures
            r@ == speed_text(self.water_speed),
    {
        if self.water_speed == 0 {
            string_from_chars(&vec!['P', 'a', 'u', 's', 'e', 'd'])
        } else {
            let mut text: Vec<char> = Vec::new();
            push_decimal(&mut text, self.water_speed);
            text.push('x');
            string_from_chars(&text)
        }
    }
}

/// The text of the speed label.
pub open spec fn speed_text(speed: u32) -> Seq<char> {
    if speed == 0 {
        seq!['P', 'a', 'u', 's', 'e', 'd']
    } else {
        decimal(speed as nat).push('x')
    }
}

/// Handles a button that shows or hides something: a click flips `shown`
/// and paints the button pressed while shown; hovering paints a hidden one's
/// button; without interaction a shown one's button is painted pressed.
/// `None` leaves the colour as it is.
pub fn toggle_button(shown: &mut bool, interaction: Interaction) -> (color: Option<ButtonColor>)
    ensures
        interaction == Interaction::Clicked ==> *final(shown) == !*old(shown) && color == Some(
            if *final(shown) {
                ButtonColor::Pressed
            } else {
                ButtonColor::Normal
            },
        ),
        interaction != Interaction::Clicked ==> *final(shown) == *old(shown),
        interaction == Interaction::Hovered ==> color == (if !*old(shown) {
            Some(ButtonColor::Hover)
        } else {
            None
        }),
        interaction == Interaction::Idle ==> color == (if *old(shown) {
            Some(ButtonColor::Pressed)
        } else {
            None
        }),
{
    match interaction {
        Interaction::Clicked => {
            *shown = !*shown;
            if *shown {
                Some(ButtonColor::Pressed)
            } else {
                Some(ButtonColor::Normal)
            }
        },
        Interaction::Hovered => {
            if !*shown {
                Some(ButtonColor::Hover)
            } else {
                None
            }
        },
        Interaction::Idle => {
            if *shown {
                Some(ButtonColor::Pressed)
            } else {
                None
            }
        },
    }
}

/// The colour of a button that acts on a click: pressed when clicked,
/// hover colour when hovered, normal otherwise.
pub fn action_button_color(interaction: Interaction) -> (color: ButtonColor)
    ensures
        color == (match interaction {
            Interaction::Clicked => ButtonColor::Pressed,
            Interaction::Hovered => ButtonColor::Hover,
            Interaction::Idle => ButtonColor::Normal,
        }),
{
    match interaction {
        Interaction::Clicked => ButtonColor::Pressed,
        Interaction::Hovered => ButtonColor::Hover,
        Interaction::Idle => ButtonColor::Normal,
    }
}

/// Play clicks keep the speed among the valid ones.
pub proof fn lemma_play_click_keeps_speed_valid(s: GuiState)
    requires
        valid_speed(s.water_speed),
    ensures
        valid_speed(play_click(s).water_speed),
        play_click(s).water_speed <= MAX_WATER_SPEED,
{
}

/// Pause clicks keep the speed among the valid ones.
pub proof fn lemma_pause_click_keeps_speed_valid(s: GuiState)
    requires
        valid_speed(s.water_speed),
    ensures
        valid_speed(pause_click(s).water_speed),
{
}

/// Two clicks on pause leave a running simulation running at speed `1` and
/// a paused one paused.
pub proof fn lemma_pause_twice(s: GuiState)
    ensures
        pause_click(pause_click(s)).water_speed == (if s.water_speed >= 1 {
            1u32
        } else {
            0u32
        }),
{
}

/// What a play click does, case by case, with every other field kept:
/// - speeding up from a pause starts at speed `1`;
/// - speeding up from `1` to `32` doubles the speed;
/// - speeding up from above `32` would pass `MAX_WATER_SPEED`, so the
///   direction turns to slowing down and the speed halves;
/// - slowing down from `2` or more halves the speed;
/// - slowing down at `1` or at a pause turns the direction to speeding up
///   and doubles the speed (a pause stays a pause).
pub proof fn lemma_play_click_cases(s: GuiState)
    ensures
        play_click(s).show_velocities == s.show_velocities,
        play_click(s).show_water == s.show_water,
        s.speed_direction == SpeedDirection::Increasing && s.water_speed == 0 ==> play_click(
            s,
        ).water_speed == 1 && play_click(s).speed_direction == SpeedDirection::Increasing,
        s.speed_direction == SpeedDirection::Increasing && 1 <= s.water_speed <= 32
            ==> play_click(s).water_speed == 2 * s.water_speed && play_click(s).speed_direction
            == SpeedDirection::Increasing,
        s.speed_direction == SpeedDirection::Increasing && s.water_speed > 32 ==> play_click(
            s,
        ).water_speed == s.water_speed / 2 && play_click(s).speed_direction
            == SpeedDirection::Decreasing,
        s.speed_direction == SpeedDirection::Decreasing && s.water_speed >= 2 ==> play_click(
            s,
        ).water_speed == s.water_speed / 2 && play_click(s).speed_direction
            == SpeedDirection::Decreasing,
        s.speed_direction == SpeedDirection::Decreasing && s.water_speed <= 1 ==> play_click(
            s,
        ).water_speed == 2 * s.water_speed && play_click(s).speed_direction
            == SpeedDirection::Increasing,
{
}

/// A pause click decides from the speed alone, whatever the direction of
/// the play button: a running simulation stops, a stopped one runs at
/// speed `1`; nothing else changes.
pub proof fn lemma_pause_click_cases(s: GuiState)
    ensures
        s.water_speed >= 1 ==> pause_click(s).water_speed == 0,
        s.water_speed == 0 ==> pause_click(s).water_speed == 1,
        pause_click(s).speed_direction == s.speed_direction,
        pause_click(s).show_velocities == s.show_velocities,
        pause_click(s).show_water == s.show_water,
{
}

/// The speed label tells the speed: `Paused` at a pause; otherwise decimal
/// digits, without a leading zero, that read back as the speed, then `x`.
pub proof fn lemma_speed_text_reads_back(speed: u32)
    ensures
        speed == 0 ==> speed_text(speed) == seq!['P', 'a', 'u', 's', 'e', 'd'],
        speed > 0 ==> {
            let t = speed_text(speed);
            &&& t.len() >= 2
            &&& t.last() == 'x'
            &&& forall|i: int| 0 <= i < t.len() - 1 ==> '0' <= #[trigger] t[i] <= '9'
            &&& t[0] != '0'
            &&& digits_value(t.drop_last()) == speed
        },
{
    if speed > 0 {
        lemma_decimal_digits(speed as nat);
        lemma_decimal_value(speed as nat);
        let t = speed_text(speed);
        assert(t.drop_last() =~= decimal(speed as nat));
        assert forall|i: int| 0 <= i < t.len() - 1 implies '0' <= #[trigger] t[i] <= '9' by {
            assert(t[i] == decimal(speed as nat)[i]);
        }
    }
}

/// One figure a solver reports after a step.
#[derive(Debug, Clone)]
pub struct SolveInfo {
    pub name: &'static str,
    pub data: String,
}

/// The line shown for one figure: its name, a colon, and its value.
pub open spec fn info_line(info: SolveInfo) -> Seq<char> {
    info.name@ + ": "@ + info.data@
}

/// The text of the figures panel: each figure's line, each preceded by a
/// line break.
pub open spec fn info_text(infos: Seq<SolveInfo>) -> Seq<char>
    decreases infos.len(),
{
    if infos.len() == 0 {
        seq![]
    } else {
        info_text(infos.drop_last()) + "\n"@ + info_line(infos.last())
    }
}

/// The text of the figures panel for the figures of the last step.
pub fn solve_info_text(infos: &[SolveInfo]) -> (r: String)
    ensures
        r@ == info_text(infos@),
{
    let mut out: Vec<char> = Vec::new();
    let mut i: usize = 0;
    while i < infos.len()
        invariant
            i <= infos@.len(),
            out@ == info_text(infos@.take(i as int)),
        decreases infos@.len() - i,
    {
        proof {
            assert(infos@.take(i + 1).drop_last() == infos@.take(i as int));
        }
        push_str(&mut out, "\n");
        push_str(&mut out, infos[i].name);
        push_str(&mut out, ": ");
        push_str(&mut out, infos[i].data.as_str());
        proof {
            assert(out@ == info_text(infos@.take(i as int)) + "\n"@ + info_line(infos@[i as int]));
        }
        i = i + 1;
    }
    proof {
        assert(infos@.take(infos@.len() as int) == infos@);
    }
    string_from_chars(&out)
}

} // verus!
