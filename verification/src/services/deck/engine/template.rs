//! Format templates: land count, per-role bounds, mana-curve targets and
//! score weights for a format and playstyle. Curve targets and weights are
//! kept in thousandths.

use vstd::prelude::*;

use super::types::{
    all_roles, role_at, role_index, role_position, Format, Playstyle, Role, TemplateOverrides, B, G, R, U, W,
};

verus! {

/// Score weights, in thousandths.
#[derive(Debug, Clone, Copy, PartialEq, Eq, Structural)]
pub struct Weights {
    pub role: u32,
    pub synergy: u32,
    pub power: u32,
    pub ownership: u32,
    pub curve: u32,
    pub pip: u32,
}

/// A deck template. `role_min` and `role_max` are indexed by a role's
/// position in `Role::ALL`; `curve` holds the share of each mana value
/// (0 to 7+) in thousandths.
#[derive(Debug, Clone)]
pub struct Template {
    pub format: Format,
    pub playstyle: Playstyle,
    pub deck_size: u32,
    pub lands: u32,
    pub role_min: Vec<u32>,
    pub role_max: Vec<u32>,
    pub curve: [u32; 8],
    pub weights: Weights,
    pub nonbasic_land_cap: u32,
}

/// The bound stored for role `r`, or 0 where there is none.
pub open spec fn bound_at(bounds: Seq<u32>, r: Role) -> u32 {
    if role_index(r) < bounds.len() {
        bounds[role_index(r)]
    } else {
        0
    }
}

impl Template {
    /// Slots for non-land cards.
    pub fn nonland(&self) -> (n: u32)
        requires
            self.lands <= self.deck_size,
        ensures
            n == self.deck_size - self.lands,
    {
        self.deck_size - self.lands
    }

    /// The least number of cards of role `r`.
    pub fn min(&self, r: Role) -> (n: u32)
        ensures
            n == bound_at(self.role_min@, r),
    {
        let i = role_position(r);
        if i < self.role_min.len() {
            self.role_min[i]
        } else {
            0
        }
    }

    /// The most cards of role `r`.
    pub fn max(&self, r: Role) -> (n: u32)
        ensures
            n == bound_at(self.role_max@, r),
    {
        let i = role_position(r);
        if i < self.role_max.len() {
            self.role_max[i]
        } else {
            0
        }
    }
}

/// The base (least, most) number of cards of each non-land role for a
/// 100-card or a 60-card deck; counterspells only with blue.
pub open spec fn base_bounds(is_brawl100: bool, has_u: bool, r: Role) -> (u32, u32) {
    if is_brawl100 {
        match r {
            Role::Ramp => (8, 12),
            Role::Draw => (8, 12),
            Role::Removal => (7, 11),
            Role::Wipe => (1, 3),
            Role::Counter => if has_u {
                (0, 4)
            } else {
                (0, 0)
            },
            Role::Protection => (2, 5),
            Role::Recursion => (0, 4),
            Role::Tutor => (0, 4),
            Role::Threat => (15, 40),
            Role::Finisher => (3, 8),
            Role::Payoff => (0, 20),
            Role::Utility => (0, 6),
            Role::Land => (0, 0),
        }
    } else {
        match r {
            Role::Ramp => (4, 7),
            Role::Draw => (4, 7),
            Role::Removal => (4, 7),
            Role::Wipe => (0, 2),
            Role::Counter => if has_u {
                (0, 3)
            } else {
                (0, 0)
            },
            Role::Protection => (1, 3),
            Role::Recursion => (0, 2),
            Role::Tutor => (0, 2),
            Role::Threat => (9, 25),
            Role::Finisher => (2, 5),
            Role::Payoff => (0, 12),
            Role::Utility => (0, 4),
            Role::Land => (0, 0),
        }
    }
}

/// The base table of a deck size: the (role, (least, most)) bounds of the
/// twelve non-land roles.
pub fn base_table(is_brawl100: bool, has_u: bool) -> (t: Vec<(Role, (u32, u32))>)
    ensures
        t@.len() == 12,
        forall|i: int| 0 <= i < 12 ==> #[trigger] t@[i].0 == role_at(i + 1),
        forall|i: int|
            0 <= i < 12 ==> #[trigger] t@[i].1 == base_bounds(is_brawl100, has_u, t@[i].0),
{
    let mut t: Vec<(Role, (u32, u32))> = Vec::new();
    let mut i: usize = 1;
    while i < 13
        invariant
            1 <= i <= 13,
            t@.len() == i - 1,
            forall|k: int| 0 <= k < i - 1 ==> #[trigger] t@[k].0 == role_at(k + 1),
            forall|k: int|
                0 <= k < i - 1 ==> #[trigger] t@[k].1 == base_bounds(is_brawl100, has_u, t@[k].0),
        decreases 13 - i,
    {
        let r = Role::ALL[i];
        assert(r == role_at(i as int));
        t.push((r, base_bounds_exec(is_brawl100, has_u, r)));
        i += 1;
    }
    t
}

fn base_bounds_exec(is_brawl100: bool, has_u: bool, r: Role) -> (b: (u32, u32))
    ensures
        b == base_bounds(is_brawl100, has_u, r),
{
    if is_brawl100 {
        match r {
            Role::Ramp => (8, 12),
            Role::Draw => (8, 12),
            Role::Removal => (7, 11),
            Role::Wipe => (1, 3),
            Role::Counter => if has_u {
                (0, 4)
            } else {
                (0, 0)
            },
            Role::Protection => (2, 5),
            Role::Recursion => (0, 4),
            Role::Tutor => (0, 4),
            Role::Threat => (15, 40),
            Role::Finisher => (3, 8),
            Role::Payoff => (0, 20),
            Role::Utility => (0, 6),
            Role::Land => (0, 0),
        }
    } else {
        match r {
            Role::Ramp => (4, 7),
            Role::Draw => (4, 7),
            Role::Removal => (4, 7),
            Role::Wipe => (0, 2),
            Role::Counter => if has_u {
                (0, 3)
            } else {
                (0, 0)
            },
            Role::Protection => (1, 3),
            Role::Recursion => (0, 2),
            Role::Tutor => (0, 2),
            Role::Threat => (9, 25),
            Role::Finisher => (2, 5),
            Role::Payoff => (0, 12),
            Role::Utility => (0, 4),
            Role::Land => (0, 0),
        }
    }
}

/// The least number of cards of a non-land role after the playstyle's
/// adjustments: aggro wants more threats; control wants a wipe, two draw
/// spells and (in blue) two counterspells more, and fewer threats.
pub open spec fn styled_min(is_brawl100: bool, has_u: bool, p: Playstyle, r: Role) -> int {
    let base = base_bounds(is_brawl100, has_u, r).0 as int;
    match p {
        Playstyle::Aggro => if r == Role::Threat {
            base + if is_brawl100 {
                7int
            } else {
                5int
            }
        } else {
            base
        },
        Playstyle::Control => if r == Role::Wipe {
            base + 1
        } else if r == Role::Counter && has_u {
            base + 2
        } else if r == Role::Draw {
            base + 2
        } else if r == Role::Threat {
            let d: int = if is_brawl100 {
                5
            } else {
                3
            };
            if base >= d {
                base - d
            } else {
                0
            }
        } else {
            base
        },
        Playstyle::Midrange => base,
    }
}

/// The most cards of a non-land role after the playstyle's adjustments:
/// aggro allows one board wipe at most.
pub open spec fn styled_max(is_brawl100: bool, has_u: bool, p: Playstyle, r: Role) -> int {
    let base = base_bounds(is_brawl100, has_u, r).1 as int;
    if p == Playstyle::Aggro && r == Role::Wipe {
        1
    } else {
        base
    }
}

/// The value given for role `r` in override pairs (the last pair wins).
pub open spec fn override_for(pairs: Seq<(Role, u32)>, r: Role) -> Option<u32>
    decreases pairs.len(),
{
    if pairs.len() == 0 {
        None
    } else if pairs.last().0 == r {
        Some(pairs.last().1)
    } else {
        override_for(pairs.drop_last(), r)
    }
}

/// The land count of a format and playstyle: aggro plays two lands fewer,
/// control one more.
pub open spec fn styled_lands(format: Format, p: Playstyle) -> int {
    let base: int = if format == Format::Brawl100 {
        37
    } else {
        24
    };
    match p {
        Playstyle::Aggro => base - 2,
        Playstyle::Control => base + 1,
        Playstyle::Midrange => base,
    }
}

/// The land count of a template, overrides applied.
pub open spec fn template_lands(
    format: Format,
    p: Playstyle,
    overrides: Option<TemplateOverrides>,
) -> int {
    match overrides {
        Some(o) => match o.lands {
            Some(l) => l as int,
            None => styled_lands(format, p),
        },
        None => styled_lands(format, p),
    }
}

/// The most cards of a non-land role, overrides applied.
pub open spec fn template_role_max(
    format: Format,
    p: Playstyle,
    identity: u8,
    overrides: Option<TemplateOverrides>,
    r: Role,
) -> int {
    let is100 = format == Format::Brawl100;
    let has_u = identity & U != 0;
    match overrides {
        Some(o) => match override_for(o.role_max@, r) {
            Some(v) => v as int,
            None => styled_max(is100, has_u, p, r),
        },
        None => styled_max(is100, has_u, p, r),
    }
}

/// The least number of cards of a non-land role, overrides applied and
/// lowered to the most where it exceeds it.
pub open spec fn template_role_min(
    format: Format,
    p: Playstyle,
    identity: u8,
    overrides: Option<TemplateOverrides>,
    r: Role,
) -> int {
    let is100 = format == Format::Brawl100;
    let has_u = identity & U != 0;
    let mn = match overrides {
        Some(o) => match override_for(o.role_min@, r) {
            Some(v) => v as int,
            None => styled_min(is100, has_u, p, r),
        },
        None => styled_min(is100, has_u, p, r),
    };
    let mx = template_role_max(format, p, identity, overrides, r);
    if mn > mx {
        mx
    } else {
        mn
    }
}

/// The curve targets of a playstyle, in thousandths.
pub open spec fn curve_of(p: Playstyle) -> Seq<u32> {
    match p {
        Playstyle::Aggro => seq![30u32, 180, 300, 240, 140, 70, 30, 10],
        Playstyle::Control => seq![20u32, 60, 180, 240, 220, 150, 80, 50],
        Playstyle::Midrange => seq![20u32, 100, 240, 240, 180, 120, 60, 40],
    }
}

/// The score weights of a playstyle, in thousandths.
pub open spec fn weights_of(p: Playstyle) -> Weights {
    match p {
        Playstyle::Midrange => Weights {
            role: 280,
            synergy: 240,
            power: 240,
            ownership: 80,
            curve: 80,
            pip: 80,
        },
        _ => Weights { role: 280, synergy: 190, power: 290, ownership: 80, curve: 80, pip: 80 },
    }
}

/// What `template_for` builds.
pub open spec fn is_template_for(
    t: Template,
    format: Format,
    p: Playstyle,
    identity: u8,
    overrides: Option<TemplateOverrides>,
) -> bool {
    let lands = template_lands(format, p, overrides);
    &&& t.format == format
    &&& t.playstyle == p
    &&& t.deck_size == (if format == Format::Brawl100 {
        99u32
    } else {
        59u32
    })
    &&& t.lands == lands
    &&& t.role_min@.len() == 13
    &&& t.role_max@.len() == 13
    &&& bound_at(t.role_min@, Role::Land) == lands
    &&& bound_at(t.role_max@, Role::Land) == lands
    &&& forall|r: Role|
        r != Role::Land ==> #[trigger] bound_at(t.role_min@, r) == template_role_min(
            format,
            p,
            identity,
            overrides,
            r,
        )
    &&& forall|r: Role|
        r != Role::Land ==> #[trigger] bound_at(t.role_max@, r) == template_role_max(
            format,
            p,
            identity,
            overrides,
            r,
        )
    &&& t.curve@ == curve_of(p)
    &&& t.weights == weights_of(p)
    &&& t.nonbasic_land_cap == lands / 3
}

fn override_lookup(pairs: &Vec<(Role, u32)>, r: Role) -> (v: Option<u32>)
    ensures
        v == override_for(pairs@, r),
{
    let mut v: Option<u32> = None;
    let mut i: usize = 0;
    while i < pairs.len()
        invariant
            i <= pairs@.len(),
            v == override_for(pairs@.take(i as int), r),
        decreases pairs@.len() - i,
    {
        assert(pairs@.take(i + 1).drop_last() =~= pairs@.take(i as int));
        if pairs[i].0 == r {
            v = Some(pairs[i].1);
        }
        i += 1;
    }
    assert(pairs@.take(pairs@.len() as int) =~= pairs@);
    v
}

/// The template of a format and playstyle for a colour identity, with the
/// caller's overrides applied.
pub fn template_for(
    format: Format,
    playstyle: Playstyle,
    identity: u8,
    overrides: Option<&TemplateOverrides>,
) -> (t: Template)
    ensures
        is_template_for(
            t,
            format,
            playstyle,
            identity,
            match overrides {
                Some(o) => Some(*o),
                None => None,
            },
        ),
        playstyle == Playstyle::Control && identity & U != 0 && overrides is None ==> bound_at(
            t.role_min@,
            Role::Counter,
        ) == 2,
{
    proof {
        lemma_control_counterspells(format, identity);
    }
    let ghost ov = match overrides {
        Some(o) => Some(*o),
        None => None,
    };
    let has_u = identity & U != 0;
    let is_brawl100 = format == Format::Brawl100;
    let mut lands: u32 = if is_brawl100 {
        37
    } else {
        24
    };
    match playstyle {
        Playstyle::Aggro => {
            lands = lands - 2;
        },
        Playstyle::Control => {
            lands = lands + 1;
        },
        Playstyle::Midrange => {},
    }
    match overrides {
        Some(o) => match o.lands {
            Some(l) => {
                lands = l;
            },
            None => {},
        },
        None => {},
    }
    let mut role_min: Vec<u32> = Vec::new();
    let mut role_max: Vec<u32> = Vec::new();
    role_min.push(lands);
    role_max.push(lands);
    let mut i: usize = 1;
    while i < 13
        invariant
            1 <= i <= 13,
            role_min@.len() == i,
            role_max@.len() == i,
            has_u == (identity & U != 0),
            is_brawl100 == (format == Format::Brawl100),
            ov == (match overrides {
                Some(o) => Some(*o),
                None => None,
            }),
            role_min@[0] == lands,
            role_max@[0] == lands,
            forall|k: int|
                1 <= k < i ==> #[trigger] role_min@[k] == template_role_min(
                    format,
                    playstyle,
                    identity,
                    ov,
                    role_at(k),
                ),
            forall|k: int|
                1 <= k < i ==> #[trigger] role_max@[k] == template_role_max(
                    format,
                    playstyle,
                    identity,
                    ov,
                    role_at(k),
                ),
        decreases 13 - i,
    {
        let r = Role::ALL[i];
        assert(r == role_at(i as int));
        let (bmin, bmax) = base_bounds_exec(is_brawl100, has_u, r);
        let mut mn: u32 = bmin;
        let mut mx: u32 = bmax;
        match playstyle {
            Playstyle::Aggro => {
                if r == Role::Threat {
                    mn = mn + if is_brawl100 {
                        7
                    } else {
                        5
                    };
                }
                if r == Role::Wipe {
                    mx = 1;
                }
            },
            Playstyle::Control => {
                if r == Role::Wipe {
                    mn = mn + 1;
                } else if r == Role::Counter && has_u {
                    mn = mn + 2;
                } else if r == Role::Draw {
                    mn = mn + 2;
                } else if r == Role::Threat {
                    let d: u32 = if is_brawl100 {
                        5
                    } else {
                        3
                    };
                    mn = if mn >= d {
                        mn - d
                    } else {
                        0
                    };
                }
            },
            Playstyle::Midrange => {},
        }
        match overrides {
            Some(o) => {
                match override_lookup(&o.role_min, r) {
                    Some(v) => {
                        mn = v;
                    },
                    None => {},
                }
                match override_lookup(&o.role_max, r) {
                    Some(v) => {
                        mx = v;
                    },
                    None => {},
                }
            },
            None => {},
        }
        if mn > mx {
            mn = mx;
        }
        role_min.push(mn);
        role_max.push(mx);
        i += 1;
    }
    let curve: [u32; 8] = match playstyle {
        Playstyle::Aggro => [30, 180, 300, 240, 140, 70, 30, 10],
        Playstyle::Control => [20, 60, 180, 240, 220, 150, 80, 50],
        Playstyle::Midrange => [20, 100, 240, 240, 180, 120, 60, 40],
    };
    let weights = match playstyle {
        Playstyle::Midrange => Weights {
            role: 280,
            synergy: 240,
            power: 240,
            ownership: 80,
            curve: 80,
            pip: 80,
        },
        _ => Weights { role: 280, synergy: 190, power: 290, ownership: 80, curve: 80, pip: 80 },
    };
    let t = Template {
        format,
        playstyle,
        deck_size: format.deck_size(),
        lands,
        role_min,
        role_max,
        curve,
        weights,
        nonbasic_land_cap: lands / 3,
    };
    proof {
        assert(t.curve@ =~= curve_of(playstyle));
        assert forall|r: Role| r != Role::Land implies #[trigger] bound_at(t.role_min@, r)
            == template_role_min(format, playstyle, identity, ov, r) by {
            assert(role_at(role_index(r)) == r);
        }
        assert forall|r: Role| r != Role::Land implies #[trigger] bound_at(t.role_max@, r)
            == template_role_max(format, playstyle, identity, ov, r) by {
            assert(role_at(role_index(r)) == r);
        }
    }
    t
}

/// The default template of every format and playstyle, for all five
/// colours: 100-card first, aggro, midrange, control.
pub fn all_default_templates() -> (v: Vec<Template>)
    ensures
        v@.len() == 6,
        forall|i: int|
            0 <= i < 6 ==> is_template_for(
                #[trigger] v@[i],
                if i < 3 {
                    Format::Brawl100
                } else {
                    Format::StandardBrawl60
                },
                if i % 3 == 0 {
                    Playstyle::Aggro
                } else if i % 3 == 1 {
                    Playstyle::Midrange
                } else {
                    Playstyle::Control
                },
                W | U | B | R | G,
                None,
            ),
{
    let identity = W | U | B | R | G;
    let mut v: Vec<Template> = Vec::new();
    v.push(template_for(Format::Brawl100, Playstyle::Aggro, identity, None));
    v.push(template_for(Format::Brawl100, Playstyle::Midrange, identity, None));
    v.push(template_for(Format::Brawl100, Playstyle::Control, identity, None));
    v.push(template_for(Format::StandardBrawl60, Playstyle::Aggro, identity, None));
    v.push(template_for(Format::StandardBrawl60, Playstyle::Midrange, identity, None));
    v.push(template_for(Format::StandardBrawl60, Playstyle::Control, identity, None));
    v
}


/// Control in blue wants two counterspells more than the base minimum, and
/// the base minimum (midrange's) is none, so a blue control template with
/// no overrides asks for two counterspells in either format; a blue
/// control template asks for two more than the midrange one of the same
/// format and identity, within the maximum.
pub proof fn lemma_control_counterspells(format: Format, identity: u8)
    ensures
        identity & U != 0 ==> {
            &&& template_role_min(format, Playstyle::Control, identity, None, Role::Counter) == 2
            &&& template_role_min(format, Playstyle::Control, identity, None, Role::Counter)
                == template_role_min(format, Playstyle::Midrange, identity, None, Role::Counter) + 2
            &&& template_role_min(format, Playstyle::Control, identity, None, Role::Counter)
                <= template_role_max(format, Playstyle::Control, identity, None, Role::Counter)
        },
{
}

/// The same for a built template: a blue control template with no
/// overrides has a counterspell minimum of 2, two above the midrange
/// template of the same format and identity.
pub proof fn lemma_control_template_counterspells(
    control: Template,
    midrange: Template,
    format: Format,
    identity: u8,
)
    requires
        is_template_for(control, format, Playstyle::Control, identity, None),
        is_template_for(midrange, format, Playstyle::Midrange, identity, None),
        identity & U != 0,
    ensures
        bound_at(control.role_min@, Role::Counter) == 2,
        bound_at(control.role_min@, Role::Counter) == bound_at(midrange.role_min@, Role::Counter)
            + 2,
{
    lemma_control_counterspells(format, identity);
}

/// Relations between the default templates (no overrides) of a format:
/// every role's minimum is within its maximum; aggro plays two lands fewer
/// and control one more than midrange; aggro asks for more threats and
/// allows at most one board wipe; control asks for one wipe and two draw
/// spells more than midrange; and a deck without blue allows no
/// counterspells.
pub proof fn lemma_template_relations(format: Format, identity: u8, r: Role)
    ensures
        template_role_min(format, Playstyle::Aggro, identity, None, r) <= template_role_max(
            format,
            Playstyle::Aggro,
            identity,
            None,
            r,
        ),
        template_role_min(format, Playstyle::Control, identity, None, r) <= template_role_max(
            format,
            Playstyle::Control,
            identity,
            None,
            r,
        ),
        template_role_min(format, Playstyle::Midrange, identity, None, r) <= template_role_max(
            format,
            Playstyle::Midrange,
            identity,
            None,
            r,
        ),
        template_lands(format, Playstyle::Aggro, None) + 2 == template_lands(
            format,
            Playstyle::Midrange,
            None,
        ),
        template_lands(format, Playstyle::Control, None) == template_lands(
            format,
            Playstyle::Midrange,
            None,
        ) + 1,
        template_role_min(format, Playstyle::Aggro, identity, None, Role::Threat)
            > template_role_min(format, Playstyle::Midrange, identity, None, Role::Threat),
        template_role_max(format, Playstyle::Aggro, identity, None, Role::Wipe) == 1,
        template_role_min(format, Playstyle::Control, identity, None, Role::Wipe)
            == template_role_min(format, Playstyle::Midrange, identity, None, Role::Wipe) + 1,
        template_role_min(format, Playstyle::Control, identity, None, Role::Draw)
            == template_role_min(format, Playstyle::Midrange, identity, None, Role::Draw) + 2,
        identity & U == 0 ==> forall|p: Playstyle|
            #[trigger] template_role_max(format, p, identity, None, Role::Counter) == 0,
{
}
} // verus!
