//! What the drawing settings decide: which inputs can be edited for the chosen
//! options, whether a drawing maps data, where it is saved, and what a color input
//! keeps of what was typed.
use vstd::prelude::*;

use crate::data::DataTypes;
use crate::draw::Coloring;
use crate::error::VicError;
use crate::text::{to_chars, trim};
use crate::wrappers::{spec_color, ColorSpec, ColorSpecView, ColorWrap};

verus! {

broadcast use vstd::string::group_string_axioms;

/// Which text inputs of the drawing settings can be edited.
#[derive(Copy, Clone, Debug, PartialEq, Eq, Structural)]
pub struct Editable {
    /// the name of the culture or religion to map
    pub name: bool,
    /// a custom water color
    pub watercolor: bool,
    /// a custom data color
    pub custom_color: bool,
    /// a custom default color
    pub custom_default: bool,
    /// the number that scales values
    pub valscale: bool,
}

pub open spec fn is_hex_digit(c: char) -> bool {
    ('0' <= c && c <= '9') || ('a' <= c && c <= 'f') || ('A' <= c && c <= 'F')
}

pub open spec fn upper(c: char) -> char {
    if 'a' <= c && c <= 'z' {
        ((c as u32) - 32) as char
    } else {
        c
    }
}

/// The hex digits among the first `n` characters of `s`, in order.
pub open spec fn hex_kept(s: Seq<char>, n: nat) -> Seq<char>
    decreases n,
{
    if n == 0 {
        Seq::empty()
    } else if is_hex_digit(s[n - 1]) {
        hex_kept(s, (n - 1) as nat).push(s[n - 1])
    } else {
        hex_kept(s, (n - 1) as nat)
    }
}

/// What a color input keeps of what was typed: its first six hex digits, in upper
/// case.
pub open spec fn color_input(s: Seq<char>) -> Seq<char> {
    let k = hex_kept(s, s.len());
    let m = if k.len() < 6 {
        k.len()
    } else {
        6
    };
    Seq::new(m, |i: int| upper(k[i]))
}

/// The message a color input sends after an edit: `sendloc + 1` where it now holds
/// six digits, `sendloc` where it holds fewer.
pub open spec fn color_message(s: Seq<char>, sendloc: nat) -> nat {
    if color_input(s).len() == 6 {
        sendloc + 1
    } else {
        sendloc
    }
}

proof fn lemma_hex_kept_len(s: Seq<char>, n: nat)
    ensures
        hex_kept(s, n).len() <= n,
    decreases n,
{
    if n > 0 {
        lemma_hex_kept_len(s, (n - 1) as nat);
    }
}

proof fn lemma_hex_kept_prefix(s: Seq<char>, n: nat, m: nat)
    requires
        n <= m,
    ensures
        hex_kept(s, n).len() <= hex_kept(s, m).len(),
        forall|i: int| 0 <= i < hex_kept(s, n).len() ==> #[trigger] hex_kept(s, n)[i] == hex_kept(s, m)[i],
    decreases m,
{
    if n < m {
        lemma_hex_kept_prefix(s, n, (m - 1) as nat);
        lemma_hex_kept_len(s, (m - 1) as nat);
    }
}

/// What a color input keeps of what was typed, and the message it sends.
fn filter_color_input(value: &str, sendloc: usize) -> (r: (String, usize))
    requires
        sendloc < usize::MAX,
    ensures
        r.0@ == color_input(value@),
        r.1 as nat == color_message(value@, sendloc as nat),
{
    let v = to_chars(value);
    let ghost s = v@;
    let mut text = String::new();
    let mut kept: usize = 0;
    let mut i: usize = 0;
    while i < v.len() && kept < 6
        invariant
            s == v@,
            s == value@,
            i <= s.len(),
            kept <= 6,
            kept == hex_kept(s, i as nat).len(),
            text@.len() == kept,
            forall|j: int| 0 <= j < text@.len() ==> #[trigger] text@[j] == upper(hex_kept(s, i as nat)[j]),
        decreases s.len() - i,
    {
        let c = v[i];
        if ('0' <= c && c <= '9') || ('a' <= c && c <= 'f') || ('A' <= c && c <= 'F') {
            let u = if 'a' <= c && c <= 'z' {
                ((c as u8) - 32) as char
            } else {
                c
            };
            assert(u == upper(c)) by {
                if 'a' <= c && c <= 'z' {
                    assert((((c as u8) - 32) as char) == (((c as u32) - 32) as char));
                }
            }
            crate::text::push_char(&mut text, u);
            kept = kept + 1;
        }
        i = i + 1;
    }
    proof {
        lemma_hex_kept_prefix(s, i as nat, s.len());
        if i < s.len() {
            assert(kept == 6);
        }
        assert(text@ =~= color_input(s));
    }
    let msg = if kept == 6 { sendloc + 1 } else { sendloc };
    (text, msg)
}

/// The name a drawing is saved under, from what was typed: `none` where nothing but
/// whitespace was.
pub open spec fn save_name(value: Seq<char>) -> Seq<char> {
    if trim(value).len() == 0 {
        "none"@
    } else {
        value
    }
}

/// What the provinces are colored by, for each choice of the lists.
pub open spec fn coloring_of(choice: i32) -> Option<Coloring> {
    if choice == 0 {
        Some(Coloring::Nothing)
    } else if choice == 1 {
        Some(Coloring::Provinces)
    } else if choice == 2 {
        Some(Coloring::StateTemplates)
    } else if choice == 3 {
        Some(Coloring::SaveStates)
    } else if choice == 4 {
        Some(Coloring::SaveCountries)
    } else {
        None
    }
}

/// What a drawing maps: the number whose share is shown.
#[derive(Copy, Clone, Debug, PartialEq, Eq, Structural)]
pub enum Numerator {
    /// the pops of the religion named
    Religion,
    /// the pops of the culture named
    Culture,
    /// all pops
    Population,
}

/// What the mapped number is divided by.
#[derive(Copy, Clone, Debug, PartialEq, Eq, Structural)]
pub enum Denominator {
    /// nothing: the totals are shown
    Nothing,
    /// the pops of the state
    Population,
    /// the area of the state
    Area,
}

/// The settings of a drawing that maps data.
#[derive(Debug)]
pub struct DataPlan {
    /// the color of the provinces without data
    pub background: ColorSpec,
    pub numerator: Numerator,
    /// the religion or culture to count
    pub name: String,
    pub denominator: Denominator,
    /// the color of the data; `None` for the color of the religion or culture counted
    pub color: Option<ColorSpec>,
    /// the text of the exponent, where a polynomial scale is chosen
    pub scale: Option<String>,
    /// whether the colors are pushed to the far ends
    pub extremes: bool,
}

/// The settings of a drawing, as the drawing tab decides them.
#[derive(Debug)]
pub struct DrawPlan {
    /// the save drawn from
    pub save: usize,
    pub color_map: Coloring,
    pub lines: Coloring,
    /// the color of the sea; `None` to draw it as land
    pub sea_color: Option<ColorSpec>,
    /// whether the borders of sea provinces are drawn
    pub sea_borders: bool,
    /// what is mapped, where the drawing maps data
    pub data: Option<DataPlan>,
    /// the name the drawing is saved under
    pub savepath: String,
}

pub ghost struct DataPlanView {
    pub background: ColorSpecView,
    pub numerator: Numerator,
    pub name: Seq<char>,
    pub denominator: Denominator,
    pub color: Option<ColorSpecView>,
    pub scale: Option<Seq<char>>,
    pub extremes: bool,
}

pub ghost struct PlanView {
    pub save: nat,
    pub color_map: Coloring,
    pub lines: Coloring,
    pub sea_color: Option<ColorSpecView>,
    pub sea_borders: bool,
    pub data: Option<DataPlanView>,
    pub savepath: Seq<char>,
}

pub open spec fn spec_view(c: Option<ColorSpec>) -> Option<ColorSpecView> {
    match c {
        Some(x) => Some(x@),
        None => None,
    }
}

impl View for DataPlan {
    type V = DataPlanView;

    open spec fn view(&self) -> DataPlanView {
        DataPlanView {
            background: self.background@,
            numerator: self.numerator,
            name: self.name@,
            denominator: self.denominator,
            color: spec_view(self.color),
            scale: match self.scale {
                Some(t) => Some(t@),
                None => None,
            },
            extremes: self.extremes,
        }
    }
}

impl View for DrawPlan {
    type V = PlanView;

    open spec fn view(&self) -> PlanView {
        PlanView {
            save: self.save as nat,
            color_map: self.color_map,
            lines: self.lines,
            sea_color: spec_view(self.sea_color),
            sea_borders: self.sea_borders,
            data: match self.data {
                Some(d) => Some(d@),
                None => None,
            },
            savepath: self.savepath@,
        }
    }
}

/// The color a color input chose where it holds a full color: `None` where the choice
/// is not the custom one, or its text is not a color.
pub open spec fn custom_of(checked: bool, text: Seq<char>) -> Option<ColorSpecView> {
    if checked {
        match spec_color(text) {
            Ok(c) => Some(c),
            Err(_) => None,
        }
    } else {
        None
    }
}

pub open spec fn hex_view(r: u8, g: u8, b: u8) -> ColorSpecView {
    ColorSpecView::Hex(seq![r, g, b])
}

/// The values of the drawing tab.
#[derive(Debug)]
pub struct DrawTab {
    /// what is drawn: religion, culture or population shares, a custom color, or the map alone
    pub draw_data: i32,
    pub choicecolor: i32,
    pub choicelines: i32,
    /// the color of provinces without data: white, black or custom
    pub default_color: i32,
    pub choicenum: i32,
    pub choiceden: i32,
    pub input_name: String,
    pub custom_color: String,
    pub custom_default: String,
    /// whether the custom data color holds six hex digits
    pub custom_color_check: bool,
    /// whether the custom default color holds six hex digits
    pub custom_default_check: bool,
    pub valscale_num: String,
    pub choice_valscale: i32,
    /// the sea color: default, custom or as land
    pub choice_watercolor: i32,
    pub custom_watercolor: String,
    /// whether the custom sea color holds six hex digits
    pub custom_watercolor_check: bool,
    /// whether sea provinces get borders: yes or no
    pub choice_waterlines: i32,
    pub preview_selector: i32,
    pub savepath: String,
    /// the names of the saves loaded
    pub saves: Vec<String>,
    /// the save chosen; negative where none is
    pub save_selector: i32,
}

/// The settings that the drawing tab decides for `t`: `None` where a choice is out of
/// its list, a custom color is chosen without a full color, or its text is not a color.
pub open spec fn planned(t: DrawTab) -> Option<PlanView> {
    let data = 0 <= t.draw_data <= 2;
    let cc = if data {
        3
    } else {
        t.choicecolor
    };
    let sea: Option<Option<ColorSpecView>> = if t.choice_watercolor == 0 {
        Some(Some(hex_view(0x00, 0x22, 0x66)))
    } else if t.choice_watercolor == 1 && custom_of(t.custom_watercolor_check, t.custom_watercolor@) is Some {
        Some(custom_of(t.custom_watercolor_check, t.custom_watercolor@))
    } else if t.choice_watercolor == 2 {
        Some(None)
    } else {
        None
    };
    let borders: Option<bool> = if t.choice_waterlines == 0 {
        Some(true)
    } else if t.choice_waterlines == 1 {
        Some(false)
    } else {
        None
    };
    match (coloring_of(cc), coloring_of(t.choicelines), sea, borders) {
        (Some(cm), Some(ln), Some(sc), Some(b)) => {
            let base = PlanView {
                save: t.save_selector as nat,
                color_map: cm,
                lines: ln,
                sea_color: sc,
                sea_borders: b,
                data: None,
                savepath: save_name(t.savepath@),
            };
            if !data {
                Some(base)
            } else {
                match data_planned(t) {
                    Some(d) => Some(PlanView { data: Some(d), ..base }),
                    None => None,
                }
            }
        },
        _ => None,
    }
}

/// The settings of what a drawing that maps data maps.
pub open spec fn data_planned(t: DrawTab) -> Option<DataPlanView> {
    let background: Option<ColorSpecView> = if t.default_color == 0 {
        Some(hex_view(0xFF, 0xFF, 0xFF))
    } else if t.default_color == 1 {
        Some(hex_view(0x00, 0x00, 0x00))
    } else if t.default_color == 2 {
        custom_of(t.custom_default_check, t.custom_default@)
    } else {
        None
    };
    let num: Option<Numerator> = if t.choicenum == 0 {
        Some(Numerator::Religion)
    } else if t.choicenum == 1 {
        Some(Numerator::Culture)
    } else if t.choicenum == 2 {
        Some(Numerator::Population)
    } else {
        None
    };
    let den: Option<Denominator> = if t.choiceden == 0 {
        Some(Denominator::Nothing)
    } else if t.choiceden == 1 {
        Some(Denominator::Population)
    } else if t.choiceden == 2 {
        Some(Denominator::Area)
    } else {
        None
    };
    let color: Option<Option<ColorSpecView>> = if t.draw_data == 0 || t.draw_data == 1 {
        Some(None)
    } else if t.draw_data == 2 && custom_of(t.custom_color_check, t.custom_color@) is Some {
        Some(custom_of(t.custom_color_check, t.custom_color@))
    } else {
        None
    };
    let scale: Option<Option<Seq<char>>> = if t.choice_valscale == 0 {
        Some(None)
    } else if t.choice_valscale == 1 {
        Some(Some(t.valscale_num@))
    } else {
        None
    };
    match (background, num, den, color, scale) {
        (Some(bg), Some(n), Some(d), Some(c), Some(sc)) => Some(
            DataPlanView {
                background: bg,
                numerator: n,
                name: t.input_name@,
                denominator: d,
                color: c,
                scale: sc,
                extremes: t.draw_data == 1,
            },
        ),
        _ => None,
    }
}

/// The tab after a drawing of data has set the map to be colored by the states of
/// the save.
pub open spec fn fixed(t: DrawTab) -> DrawTab {
    if 0 <= t.draw_data <= 2 {
        DrawTab { choicecolor: 3, ..t }
    } else {
        t
    }
}

/// The color that a color input holds, where its choice is the custom one and it holds
/// a full color.
fn custom_color_of(checked: bool, text: &String) -> (r: Result<ColorSpec, VicError>)
    ensures
        r matches Ok(c) ==> custom_of(checked, text@) == Some(c@),
        r is Err ==> custom_of(checked, text@) is None,
{
    if !checked {
        return Err(VicError::temp());
    }
    ColorSpec::parse(text.as_str())
}

fn fixed_color(r: u8, g: u8, b: u8) -> (c: ColorSpec)
    ensures
        c@ == hex_view(r, g, b),
{
    let w = ColorWrap::from([r, g, b]);
    assert([r, g, b]@ =~= seq![r, g, b]);
    ColorSpec::Hex(w)
}

fn coloring(choice: i32) -> (r: Result<Coloring, VicError>)
    ensures
        r matches Ok(c) ==> coloring_of(choice) == Some(c),
        r is Err ==> coloring_of(choice) is None,
{
    if choice == 0 {
        Ok(Coloring::Nothing)
    } else if choice == 1 {
        Ok(Coloring::Provinces)
    } else if choice == 2 {
        Ok(Coloring::StateTemplates)
    } else if choice == 3 {
        Ok(Coloring::SaveStates)
    } else if choice == 4 {
        Ok(Coloring::SaveCountries)
    } else {
        Err(VicError::temp())
    }
}

impl DrawTab {
    /// The tab as it opens: states and their borders colored by the save, the map alone
    /// drawn, the default sea color without sea borders, white for provinces without
    /// data, religion over the total, no scale, a preview, and `test` as the name.
    pub fn new() -> (r: Self)
        ensures
            r.draw_data == 3 && r.choicecolor == 3 && r.choicelines == 3 && r.default_color == 0
                && r.choicenum == 0 && r.choiceden == 0 && r.choice_valscale == 0
                && r.choice_watercolor == 0 && r.choice_waterlines == 1 && r.preview_selector == 0
                && r.save_selector == -1,
            r.input_name@.len() == 0 && r.custom_color@.len() == 0 && r.custom_default@.len() == 0
                && r.valscale_num@.len() == 0 && r.custom_watercolor@.len() == 0,
            !r.custom_color_check && !r.custom_default_check && !r.custom_watercolor_check,
            r.savepath@ == "test"@,
            r.saves@.len() == 0,
    {
        DrawTab {
            draw_data: 3,
            choicecolor: 3,
            choicelines: 3,
            default_color: 0,
            choicenum: 0,
            choiceden: 0,
            input_name: String::new(),
            custom_color: String::new(),
            custom_default: String::new(),
            custom_color_check: false,
            custom_default_check: false,
            valscale_num: String::new(),
            choice_valscale: 0,
            choice_watercolor: 0,
            custom_watercolor: String::new(),
            custom_watercolor_check: false,
            choice_waterlines: 1,
            preview_selector: 0,
            savepath: String::from_str("test"),
            saves: Vec::new(),
            save_selector: -1,
        }
    }

    /// The inputs that can be edited for the chosen options: the name for a religion
    /// or a culture (choices 0 and 1 of the numerator), each custom color where its
    /// choice is the custom one, and the scale where scaling is chosen.
    pub fn lock(&self) -> (r: Editable)
        ensures
            r == (Editable {
                name: self.choicenum == 0 || self.choicenum == 1,
                watercolor: self.choice_watercolor == 1,
                custom_color: self.draw_data == 2,
                custom_default: self.default_color == 2,
                valscale: self.choice_valscale == 1,
            }),
    {
        Editable {
            name: self.choicenum == 0 || self.choicenum == 1,
            watercolor: self.choice_watercolor == 1,
            custom_color: self.draw_data == 2,
            custom_default: self.default_color == 2,
            valscale: self.choice_valscale == 1,
        }
    }

    /// Filters what was typed into a color input down to its first six hex digits, in
    /// upper case, and gives the one message to send: `sendloc` while the box holds
    /// 0 to 5 characters, `sendloc + 1` when it holds 6.
    pub fn col_box_callback(value: &str, sendloc: usize) -> (r: (String, usize))
        requires
            sendloc < usize::MAX,
        ensures
            r.0@ == color_input(value@),
            r.1 as nat == color_message(value@, sendloc as nat),
    {
        filter_color_input(value, sendloc)
    }

    pub fn add_save(&mut self, name: String)
        ensures
            *final(self) == (DrawTab { saves: final(self).saves, ..*old(self) }),
            final(self).saves@ == old(self).saves@.push(name),
    {
        self.saves.push(name);
    }

    /// Forgets the saves, and the choice among them.
    pub fn clear_saves(&mut self)
        ensures
            *final(self) == (DrawTab { saves: final(self).saves, save_selector: -1i32, ..*old(self) }),
            final(self).saves@.len() == 0,
    {
        self.saves = Vec::new();
        self.save_selector = -1;
    }

    pub fn preview(&self) -> (r: bool)
        ensures
            r == (self.preview_selector == 0),
    {
        self.preview_selector == 0
    }

    pub fn check_custom_color(&mut self, to: bool)
        ensures
            *final(self) == (DrawTab { custom_color_check: to, ..*old(self) }),
    {
        self.custom_color_check = to;
    }

    pub fn check_default_color(&mut self, to: bool)
        ensures
            *final(self) == (DrawTab { custom_default_check: to, ..*old(self) }),
    {
        self.custom_default_check = to;
    }

    pub fn check_custom_watercolor(&mut self, to: bool)
        ensures
            *final(self) == (DrawTab { custom_watercolor_check: to, ..*old(self) }),
    {
        self.custom_watercolor_check = to;
    }

    /// The name a drawing is saved under: `none` where nothing but whitespace was
    /// typed.
    pub fn savepath(&self) -> (r: String)
        ensures
            r@ == save_name(self.savepath@),
    {
        let v = to_chars(self.savepath.as_str());
        let (a, b) = crate::text::trim_bounds(&v, 0, v.len());
        assert(v@.subrange(0, v@.len() as int) =~= v@);
        if a == b {
            String::from_str("none")
        } else {
            self.savepath.clone()
        }
    }

    /// Whether the chosen drawing maps data (the first three choices) or only draws the
    /// map (the fourth); an error for any other choice.
    pub fn is_data(&self) -> (r: Result<bool, VicError>)
        ensures
            0 <= self.draw_data <= 2 ==> r == Ok::<bool, VicError>(true),
            self.draw_data == 3 ==> r == Ok::<bool, VicError>(false),
            !(0 <= self.draw_data <= 3) ==> (r matches Err(e) && e is SaveError),
    {
        if 0 <= self.draw_data && self.draw_data <= 2 {
            Ok(true)
        } else if self.draw_data == 3 {
            Ok(false)
        } else {
            Err(VicError::temp())
        }
    }

    /// A drawing of data colors the map by the states of the save.
    fn temp_fix_savestates(&mut self)
        requires
            0 <= old(self).draw_data <= 3,
        ensures
            *final(self) == fixed(*old(self)),
    {
        if 0 <= self.draw_data && self.draw_data <= 2 {
            self.choicecolor = 3;
        }
    }

    /// The settings of the drawing that the choices make.
    fn draw_inner(&mut self) -> (r: Result<DrawPlan, VicError>)
        requires
            0 <= old(self).draw_data <= 3,
            old(self).save_selector >= 0,
        ensures
            *final(self) == fixed(*old(self)),
            match planned(fixed(*old(self))) {
                Some(p) => r matches Ok(q) && q@ == p,
                None => r is Err,
            },
    {
        self.temp_fix_savestates();
        let data = 0 <= self.draw_data && self.draw_data <= 2;
        let color_map = coloring(self.choicecolor)?;
        let lines = coloring(self.choicelines)?;
        let sea_color = if self.choice_watercolor == 0 {
            Some(fixed_color(0x00, 0x22, 0x66))
        } else if self.choice_watercolor == 1 {
            Some(custom_color_of(self.custom_watercolor_check, &self.custom_watercolor)?)
        } else if self.choice_watercolor == 2 {
            None
        } else {
            return Err(VicError::temp());
        };
        let sea_borders = if self.choice_waterlines == 0 {
            true
        } else if self.choice_waterlines == 1 {
            false
        } else {
            return Err(VicError::temp());
        };
        let savepath = self.savepath();
        let mut plan = DrawPlan {
            save: self.save_selector as usize,
            color_map,
            lines,
            sea_color,
            sea_borders,
            data: None,
            savepath,
        };
        if !data {
            return Ok(plan);
        }
        let background = if self.default_color == 0 {
            fixed_color(0xFF, 0xFF, 0xFF)
        } else if self.default_color == 1 {
            fixed_color(0x00, 0x00, 0x00)
        } else if self.default_color == 2 {
            custom_color_of(self.custom_default_check, &self.custom_default)?
        } else {
            return Err(VicError::temp());
        };
        let numerator = if self.choicenum == 0 {
            Numerator::Religion
        } else if self.choicenum == 1 {
            Numerator::Culture
        } else if self.choicenum == 2 {
            Numerator::Population
        } else {
            return Err(VicError::temp());
        };
        let denominator = if self.choiceden == 0 {
            Denominator::Nothing
        } else if self.choiceden == 1 {
            Denominator::Population
        } else if self.choiceden == 2 {
            Denominator::Area
        } else {
            return Err(VicError::temp());
        };
        let color = if self.draw_data == 0 || self.draw_data == 1 {
            None
        } else {
            Some(custom_color_of(self.custom_color_check, &self.custom_color)?)
        };
        let scale = if self.choice_valscale == 0 {
            None
        } else if self.choice_valscale == 1 {
            Some(self.valscale_num.clone())
        } else {
            return Err(VicError::temp());
        };
        plan.data = Some(
            DataPlan {
                background,
                numerator,
                name: self.input_name.clone(),
                denominator,
                color,
                scale,
                extremes: self.draw_data == 1,
            },
        );
        Ok(plan)
    }

    /// The settings of the drawing the tab asks for: an error where no save is chosen,
    /// a choice is out of its list, or a custom color is chosen without a full color.
    /// A drawing of data colors the map by the states of the save.
    pub fn draw(&mut self) -> (r: Result<DrawPlan, VicError>)
        requires
            old(self).save_selector >= 0 ==> 0 <= old(self).draw_data <= 3,
        ensures
            old(self).save_selector < 0 ==> (r matches Err(e) && e is SaveError) && *final(self)
                == *old(self),
            old(self).save_selector >= 0 ==> *final(self) == fixed(*old(self)) && match planned(
                fixed(*old(self)),
            ) {
                Some(p) => r matches Ok(q) && q@ == p,
                None => r is Err,
            },
    {
        if self.save_selector < 0 {
            return Err(VicError::temp());
        }
        self.draw_inner()
    }

    /// The status line once a drawing was asked for: that no save is chosen, that
    /// preparing the drawing failed (`r` an error), or that the map is being drawn.
    pub fn draw_status(&self, r: &Result<DrawPlan, VicError>) -> (s: String)
        ensures
            self.save_selector < 0 ==> s@ == "no save selected"@,
            self.save_selector >= 0 && r is Err ==> s@ == "failed at preparing data"@,
            self.save_selector >= 0 && r is Ok ==> s@ == "drawing map..."@,
    {
        if self.save_selector < 0 {
            String::from_str("no save selected")
        } else if r.is_err() {
            String::from_str("failed at preparing data")
        } else {
            String::from_str("drawing map...")
        }
    }

    /// Draws the countries of the save, alone.
    pub fn quick_draw_countries(&mut self) -> (r: Result<DrawPlan, VicError>)
        ensures
            ({
                let t = DrawTab { choicecolor: 4, draw_data: 3, ..*old(self) };
                &&& old(self).save_selector < 0 ==> (r matches Err(e) && e is SaveError)
                    && *final(self) == t
                &&& old(self).save_selector >= 0 ==> *final(self) == t && match planned(t) {
                    Some(p) => r matches Ok(q) && q@ == p,
                    None => r is Err,
                }
            }),
    {
        self.choicecolor = 4;
        self.draw_data = 3;
        self.draw()
    }

    /// Draws the states of the save, alone.
    pub fn quick_draw_states(&mut self) -> (r: Result<DrawPlan, VicError>)
        ensures
            ({
                let t = DrawTab { choicecolor: 3, draw_data: 3, ..*old(self) };
                &&& old(self).save_selector < 0 ==> (r matches Err(e) && e is SaveError)
                    && *final(self) == t
                &&& old(self).save_selector >= 0 ==> *final(self) == t && match planned(t) {
                    Some(p) => r matches Ok(q) && q@ == p,
                    None => r is Err,
                }
            }),
    {
        self.choicecolor = 3;
        self.draw_data = 3;
        self.draw()
    }
}

/// What a message of the window asks for.
#[derive(Copy, Clone, Debug, PartialEq, Eq, Structural)]
pub enum Message {
    Draw,
    QuickDrawCountries,
    QuickDrawStates,
    /// the choices changed: open or close the inputs
    Lock,
    /// whether the custom data color holds six hex digits
    CustomColor(bool),
    /// whether the custom default color holds six hex digits
    DefaultColor(bool),
    /// whether the custom sea color holds six hex digits
    WaterColor(bool),
    ScanSave,
    ScanGame,
    ClearSaves,
    Ignored,
}

/// What each message number of the window asks for.
pub fn message(n: usize) -> (r: Message)
    ensures
        r == (if n == 100 {
            Message::Draw
        } else if n == 101 {
            Message::QuickDrawCountries
        } else if n == 102 {
            Message::QuickDrawStates
        } else if n == 103 {
            Message::Lock
        } else if n == 104 || n == 105 {
            Message::CustomColor(n == 105)
        } else if n == 106 || n == 107 {
            Message::DefaultColor(n == 107)
        } else if n == 108 || n == 109 {
            Message::WaterColor(n == 109)
        } else if n == 200 {
            Message::ScanSave
        } else if n == 201 {
            Message::ScanGame
        } else if n == 202 {
            Message::ClearSaves
        } else {
            Message::Ignored
        }),
{
    if n == 100 {
        Message::Draw
    } else if n == 101 {
        Message::QuickDrawCountries
    } else if n == 102 {
        Message::QuickDrawStates
    } else if n == 103 {
        Message::Lock
    } else if n == 104 || n == 105 {
        Message::CustomColor(n == 105)
    } else if n == 106 || n == 107 {
        Message::DefaultColor(n == 107)
    } else if n == 108 || n == 109 {
        Message::WaterColor(n == 109)
    } else if n == 200 {
        Message::ScanSave
    } else if n == 201 {
        Message::ScanGame
    } else if n == 202 {
        Message::ClearSaves
    } else {
        Message::Ignored
    }
}

/// `std::path::PathBuf::pop` on the path `p`: the path with its last component
/// taken off, or `p` itself where it has no parent. Stated is only that the result
/// is a prefix of `p`; where the last component starts depends on the separators of
/// the platform, and is left unsaid.
#[verifier::external_body]
fn folder_of(p: &str) -> (r: String)
    ensures
        r@.len() <= p@.len(),
        r@ == p@.subrange(0, r@.len() as int),
{
    let mut buf = std::path::PathBuf::from(p);
    buf.pop();
    buf.to_string_lossy().into_owned()
}

/// The values of the scanning tab: for the game files and for the saves, whether the
/// last scan went through, the path shown, and the path a new search starts from.
#[derive(Debug)]
pub struct ScanTab {
    pub game_check: bool,
    pub game_text: String,
    pub game_path: String,
    pub save_check: bool,
    pub save_text: String,
    pub save_path: String,
}

impl ScanTab {
    /// The tab as it opens: nothing scanned.
    pub fn new() -> (r: Self)
        ensures
            !r.game_check && !r.save_check,
            r.game_text@.len() == 0 && r.game_path@.len() == 0,
            r.save_text@.len() == 0 && r.save_path@.len() == 0,
    {
        ScanTab {
            game_check: false,
            game_text: String::new(),
            game_path: String::new(),
            save_check: false,
            save_text: String::new(),
            save_path: String::new(),
        }
    }

    /// Records a scan: its check and the path shown. A new search for game files
    /// starts from the path chosen; one for saves from the folder of the save chosen,
    /// the path with its last component taken off.
    pub fn update(&mut self, datatype: DataTypes, label: String, new_check: bool)
        ensures
            datatype == DataTypes::GameMap ==> final(self).game_check == new_check
                && final(self).game_text@ == label@ && final(self).game_path@ == label@
                && final(self).save_check == old(self).save_check && final(self).save_text@
                == old(self).save_text@ && final(self).save_path@ == old(self).save_path@,
            datatype == DataTypes::Save ==> final(self).save_check == new_check
                && final(self).save_text@ == label@ && final(self).save_path@.len()
                <= label@.len() && final(self).save_path@ == label@.subrange(
                0,
                final(self).save_path@.len() as int,
            ) && final(self).game_check == old(self).game_check && final(self).game_text@
                == old(self).game_text@ && final(self).game_path@ == old(self).game_path@,
    {
        match datatype {
            DataTypes::GameMap => {
                self.game_check = new_check;
                self.game_path = label.clone();
                self.game_text = label;
            },
            DataTypes::Save => {
                self.save_check = new_check;
                self.save_path = folder_of(label.as_str());
                self.save_text = label;
            },
        }
    }

    /// The path a new search starts from; `None` where there is none.
    pub fn path(&self, datatype: DataTypes) -> (r: Option<&String>)
        ensures
            ({
                let p = if datatype == DataTypes::GameMap {
                    self.game_path@
                } else {
                    self.save_path@
                };
                &&& p.len() == 0 ==> r is None
                &&& p.len() > 0 ==> (r matches Some(q) && q@ == p)
            }),
    {
        let p = match datatype {
            DataTypes::GameMap => &self.game_path,
            DataTypes::Save => &self.save_path,
        };
        if p.unicode_len() == 0 {
            None
        } else {
            Some(p)
        }
    }
}

} // verus!
