use vic3_analyzer::draw::Coloring;
use vic3_analyzer::error::VicError;
use vic3_analyzer::data::DataTypes;
use vic3_analyzer::settings::{message, Denominator, DrawTab, Message, Numerator, ScanTab};
use vic3_analyzer::wrappers::ColorSpec;

fn hex(c: &ColorSpec) -> [u8; 3] {
    match c {
        ColorSpec::Hex(w) => w.unravel(),
        _ => panic!("expected a hex color"),
    }
}

#[test]
fn inputs_open_for_their_options() {
    let mut t = DrawTab::new();
    t.choicenum = 1;
    t.choice_watercolor = 1;
    t.draw_data = 2;
    t.default_color = 0;
    t.choice_valscale = 1;
    let e = t.lock();
    assert!(e.name && e.watercolor && e.custom_color && !e.custom_default && e.valscale);
    t.choicenum = 2;
    t.choice_watercolor = 0;
    t.draw_data = 3;
    t.default_color = 2;
    t.choice_valscale = 0;
    let e = t.lock();
    assert!(!e.name && !e.watercolor && !e.custom_color && e.custom_default && !e.valscale);
}

#[test]
fn data_drawings_by_choice() {
    let mut t = DrawTab::new();
    t.draw_data = 0;
    assert!(t.is_data().unwrap());
    t.draw_data = 2;
    assert!(t.is_data().unwrap());
    t.draw_data = 3;
    assert!(!t.is_data().unwrap());
    t.draw_data = 4;
    assert!(matches!(t.is_data(), Err(VicError::SaveError)));
    t.draw_data = -1;
    assert!(matches!(t.is_data(), Err(VicError::SaveError)));
}

#[test]
fn blank_save_names_become_none() {
    let mut t = DrawTab::new();
    assert_eq!(t.savepath(), "test");
    t.savepath = "  \t".to_string();
    assert_eq!(t.savepath(), "none");
    t.savepath = String::new();
    assert_eq!(t.savepath(), "none");
    t.savepath = " map ".to_string();
    assert_eq!(t.savepath(), " map ");
}

#[test]
fn color_inputs_keep_six_hex_digits() {
    assert_eq!(DrawTab::col_box_callback("#ab12-cdZZ9f0", 104), ("AB12CD".to_string(), 105));
    assert_eq!(DrawTab::col_box_callback("ab12cd9", 104), ("AB12CD".to_string(), 105));
    assert_eq!(DrawTab::col_box_callback("x1", 7), ("1".to_string(), 7));
    assert_eq!(DrawTab::col_box_callback("zz", 7), (String::new(), 7));
    assert_eq!(DrawTab::col_box_callback("", 7), (String::new(), 7));
    assert_eq!(DrawTab::col_box_callback("\u{e9}12345", 7), ("12345".to_string(), 7));
}

#[test]
fn errors_show_their_text() {
    assert_eq!(VicError::named("no path").debug_string(), "error no path");
    assert_eq!(VicError::temp().debug_string(), "aaaaa");
    assert_eq!(VicError::temp().to_string(), "__");
}

#[test]
fn a_drawing_needs_a_save() {
    let mut t = DrawTab::new();
    assert!(matches!(t.draw(), Err(VicError::SaveError)));
    t.add_save("a.v3".to_string());
    t.save_selector = 0;
    assert!(t.draw().is_ok());
    t.clear_saves();
    assert!(t.saves.is_empty());
    assert_eq!(t.save_selector, -1);
    assert!(t.draw().is_err());
}

#[test]
fn the_opening_tab_draws_the_map_alone() {
    let mut t = DrawTab::new();
    t.save_selector = 0;
    let plan = t.draw().unwrap();
    assert_eq!(plan.save, 0);
    assert_eq!(plan.color_map, Coloring::SaveStates);
    assert_eq!(plan.lines, Coloring::SaveStates);
    assert_eq!(hex(plan.sea_color.as_ref().unwrap()), [0x00, 0x22, 0x66]);
    assert!(!plan.sea_borders);
    assert!(plan.data.is_none());
    assert_eq!(plan.savepath, "test");
    // the default sea color is the one the game files would write as x002266
    assert_eq!(hex(&ColorSpec::parse("x002266").unwrap()), [0x00, 0x22, 0x66]);
    assert!(t.preview());
}

#[test]
fn a_data_drawing_colors_by_the_states_of_the_save() {
    let mut t = DrawTab::new();
    t.save_selector = 1;
    t.choicecolor = 1;
    t.draw_data = 1;
    t.choicenum = 1;
    t.input_name = "arabic".to_string();
    t.choiceden = 2;
    t.default_color = 1;
    t.choice_watercolor = 2;
    t.choice_waterlines = 0;
    let plan = t.draw().unwrap();
    assert_eq!(t.choicecolor, 3);
    assert_eq!(plan.color_map, Coloring::SaveStates);
    assert!(plan.sea_color.is_none());
    assert!(plan.sea_borders);
    let data = plan.data.unwrap();
    assert_eq!(hex(&data.background), [0, 0, 0]);
    assert_eq!(data.numerator, Numerator::Culture);
    assert_eq!(data.name, "arabic");
    assert_eq!(data.denominator, Denominator::Area);
    assert!(data.color.is_none());
    assert!(data.scale.is_none());
    assert!(data.extremes);
}

#[test]
fn custom_colors_need_six_digits() {
    let mut t = DrawTab::new();
    t.save_selector = 0;
    t.draw_data = 2;
    t.custom_color = "102030".to_string();
    assert!(matches!(t.draw(), Err(VicError::SaveError)));
    t.check_custom_color(true);
    let plan = t.draw().unwrap();
    let data = plan.data.unwrap();
    assert_eq!(hex(data.color.as_ref().unwrap()), [0x10, 0x20, 0x30]);
    assert_eq!(hex(&data.background), [0xFF, 0xFF, 0xFF]);
    assert_eq!(data.numerator, Numerator::Religion);
    assert_eq!(data.denominator, Denominator::Nothing);
    t.choice_valscale = 1;
    t.valscale_num = "2.5".to_string();
    assert_eq!(t.draw().unwrap().data.unwrap().scale, Some("2.5".to_string()));
    t.choice_valscale = 2;
    assert!(t.draw().is_err());
}

#[test]
fn a_custom_sea_color_needs_six_digits() {
    let mut t = DrawTab::new();
    t.save_selector = 0;
    t.choice_watercolor = 1;
    t.custom_watercolor = "ABCDEF".to_string();
    assert!(t.draw().is_err());
    t.check_custom_watercolor(true);
    assert_eq!(hex(t.draw().unwrap().sea_color.as_ref().unwrap()), [0xAB, 0xCD, 0xEF]);
    t.check_default_color(true);
    assert!(t.custom_default_check);
}

#[test]
fn quick_drawings_set_their_choices() {
    let mut t = DrawTab::new();
    t.save_selector = 0;
    t.draw_data = 0;
    let plan = t.quick_draw_countries().unwrap();
    assert_eq!(plan.color_map, Coloring::SaveCountries);
    assert!(plan.data.is_none());
    assert_eq!(t.draw_data, 3);
    let plan = t.quick_draw_states().unwrap();
    assert_eq!(plan.color_map, Coloring::SaveStates);
    assert_eq!(t.choicecolor, 3);
}

#[test]
fn window_messages() {
    assert_eq!(message(100), Message::Draw);
    assert_eq!(message(101), Message::QuickDrawCountries);
    assert_eq!(message(102), Message::QuickDrawStates);
    assert_eq!(message(103), Message::Lock);
    assert_eq!(message(104), Message::CustomColor(false));
    assert_eq!(message(105), Message::CustomColor(true));
    assert_eq!(message(107), Message::DefaultColor(true));
    assert_eq!(message(108), Message::WaterColor(false));
    assert_eq!(message(200), Message::ScanSave);
    assert_eq!(message(201), Message::ScanGame);
    assert_eq!(message(202), Message::ClearSaves);
    assert_eq!(message(7), Message::Ignored);
}

#[test]
fn the_scan_tab_remembers_where_to_search() {
    let mut t = ScanTab::new();
    assert!(t.path(DataTypes::GameMap).is_none());
    t.update(DataTypes::GameMap, "/games/vic3".to_string(), true);
    assert_eq!(t.path(DataTypes::GameMap).unwrap(), "/games/vic3");
    assert!(t.game_check);
    t.update(DataTypes::Save, "/saves/a.v3".to_string(), false);
    assert_eq!(t.save_text, "/saves/a.v3");
    assert_eq!(t.path(DataTypes::Save).unwrap(), "/saves");
    assert!(!t.save_check);
    t.update(DataTypes::Save, String::new(), false);
    assert!(t.path(DataTypes::Save).is_none());
    assert_eq!(t.path(DataTypes::GameMap).unwrap(), "/games/vic3");
    t.update(DataTypes::Save, "a.v3".to_string(), true);
    assert!(t.path(DataTypes::Save).is_none());
    t.update(DataTypes::Save, "/saves/old/b.v3".to_string(), true);
    assert_eq!(t.path(DataTypes::Save).unwrap(), "/saves/old");
}

#[test]
fn the_status_line_says_why_a_drawing_stopped() {
    let mut t = DrawTab::new();
    let r = t.draw();
    assert_eq!(t.draw_status(&r), "no save selected");
    t.save_selector = 0;
    let r = t.quick_draw_states();
    assert!(r.is_ok());
    assert_eq!(t.draw_status(&r), "drawing map...");
    let failed: Result<vic3_analyzer::settings::DrawPlan, VicError> = Err(VicError::temp());
    assert_eq!(t.draw_status(&failed), "failed at preparing data");
}
