use vic3_analyzer::error::VicError;
use vic3_analyzer::map::strategic::statetemplates::StateTemplate;
use vic3_analyzer::map::strategic::StrategicRegion;

fn lines(v: &[&str]) -> Vec<String> {
    v.iter().map(|s| s.to_string()).collect()
}

fn template(text: &[&str], ocean: bool) -> StateTemplate {
    let data = lines(text);
    let mut at = 0;
    StateTemplate::new(&data, &mut at, ocean).unwrap().unwrap()
}

fn state_a() -> StateTemplate {
    template(&["STATE_A = {", "    id = 5", "    provinces = { \"x010203\" \"x0A0B0C\" }", "}"], false)
}

fn state_b() -> StateTemplate {
    template(&["STATE_B = {", "    id = 7", "    provinces = { \"xFFEE00\" }", "}"], false)
}

fn region_lines(states: &str, capital: &str) -> Vec<String> {
    lines(&[
        "region_a = {",
        "\tgraphical_culture = \"arabic\"",
        capital,
        "\tmap_color = { 0.5 0.2 0.1 }",
        states,
        "}",
        "region_b = {",
    ])
}

#[test]
fn a_template_reads_its_name_id_and_provinces() {
    let data = lines(&["STATE_A = {", "    id = 5", "    provinces = { \"x010203\" \"x0A0B0C\" }", "}", "STATE_B = {"]);
    let mut at = 0;
    let t = StateTemplate::new(&data, &mut at, false).unwrap().unwrap();
    assert_eq!(at, 4);
    assert_eq!(t.name(), "STATE_A");
    assert_eq!(t.id(), (0, 5));
    assert_eq!(t.size(), 2);
    assert!(t.contains([1, 2, 3]));
    assert!(t.contains([10, 11, 12]));
    assert!(!t.contains([1, 1, 1]));
    assert!(!t.is_ocean());
    assert!(t.offset().is_err());
}

#[test]
fn a_template_without_closing_brace_is_none() {
    let data = lines(&["STATE_A = {", "    id = 5"]);
    let mut at = 0;
    assert!(StateTemplate::new(&data, &mut at, true).unwrap().is_none());
}

#[test]
fn a_template_id_that_is_too_large_is_an_error() {
    let data = lines(&["STATE_A = {", "    id = 99999999999999999999999", "}"]);
    let mut at = 0;
    assert!(StateTemplate::new(&data, &mut at, false).is_err());
}

#[test]
fn a_province_that_is_not_a_color_is_refused_by_read() {
    let data = lines(&["STATE_A = {", "    provinces = { \"x01\" }", "}"]);
    let mut at = 0;
    assert!(StateTemplate::read(&data, &mut at, false).is_none());
    assert_eq!(at, 0);
}

#[test]
fn set_id_keeps_the_id_of_the_files() {
    let mut t = state_a();
    t.set_id(3);
    assert_eq!(t.id(), (3, 5));
    t.set_offset(9);
    assert_eq!(t.offset().unwrap(), 9);
}

#[test]
fn a_region_orders_and_places_its_states() {
    let mut a = state_a();
    a.set_id(1);
    let mut b = state_b();
    b.set_id(2);
    let mut pool = vec![Some(b), None, Some(a)];
    let data = region_lines("\tstates = { STATE_B STATE_A }", "\tcapital_province = x0A0B0C");
    let mut at = 0;
    let region = StrategicRegion::new(&data, &mut at, &mut pool, 10, false).unwrap().unwrap();
    assert_eq!(at, 6);
    assert!(pool.iter().all(|s| s.is_none()));
    let names: Vec<&str> = region.states().iter().map(|s| s.name()).collect();
    assert_eq!(names, vec!["STATE_A", "STATE_B"]);
    assert_eq!(region.states()[0].offset().unwrap(), 0);
    assert_eq!(region.states()[1].offset().unwrap(), 2);
    assert_eq!(region.size(), 3);
    assert_eq!(region.get_number([10, 11, 12]).unwrap(), Some((10, 2)));
    assert_eq!(region.get_number([255, 238, 0]).unwrap(), Some((12, 1)));
    assert_eq!(region.get_number([9, 9, 9]).unwrap(), None);
    assert_eq!(region.get_state([255, 238, 0]).unwrap().name(), "STATE_B");
    assert!(region.get_state([9, 9, 9]).is_none());
    assert_eq!(region.get_color([1, 2, 3], None), Some("0.5 0.2 0.1".to_string()));
    assert_eq!(region.get_color([9, 9, 9], None), None);
}

#[test]
fn states_with_equal_ids_keep_the_order_they_are_named_in() {
    let mut pool = vec![Some(state_a()), Some(state_b())];
    let data = region_lines("\tstates = { STATE_B STATE_A }", "\tcapital_province = x0A0B0C");
    let mut at = 0;
    let region = StrategicRegion::new(&data, &mut at, &mut pool, 0, false).unwrap().unwrap();
    let names: Vec<&str> = region.states().iter().map(|s| s.name()).collect();
    assert_eq!(names, vec!["STATE_B", "STATE_A"]);
    assert_eq!(region.get_number([1, 2, 3]).unwrap(), Some((1, 2)));
}

#[test]
fn a_known_state_decides_the_color() {
    let mut pool = vec![Some(state_a())];
    let data = region_lines("\tstates = { STATE_A }", "\tcapital_province = x0A0B0C");
    let mut at = 0;
    let region = StrategicRegion::new(&data, &mut at, &mut pool, 0, false).unwrap().unwrap();
    let other = state_b();
    assert_eq!(region.get_color([1, 2, 3], Some(&other)), None);
    assert_eq!(region.get_color([255, 238, 0], Some(&other)), Some("0.5 0.2 0.1".to_string()));
}

#[test]
fn an_ocean_region_refuses_a_land_state() {
    let mut pool = vec![Some(state_b()), Some(state_a())];
    let data = region_lines("\tstates = { STATE_B STATE_A }", "\tcapital_province = x0A0B0C");
    let mut at = 0;
    match StrategicRegion::new(&data, &mut at, &mut pool, 0, true) {
        Err(VicError::MapError(_)) => {}
        _ => panic!("expected a map error"),
    }
    assert!(pool[0].is_some());
}

#[test]
fn unknown_state_names_are_passed_over() {
    let mut pool = vec![Some(state_a())];
    let data = region_lines("\tstates = { STATE_X STATE_A }", "\tcapital_province = x0A0B0C");
    let mut at = 0;
    let region = StrategicRegion::new(&data, &mut at, &mut pool, 0, false).unwrap().unwrap();
    assert_eq!(region.states().len(), 1);
    assert_eq!(region.size(), 2);
}

#[test]
fn a_short_capital_leaves_the_pool_alone() {
    let mut pool = vec![Some(state_a())];
    let data = region_lines("\tstates = { STATE_A }", "\tcapital_province = x0A0B");
    let mut at = 0;
    assert!(StrategicRegion::read(&data, &mut at, &mut pool, 0, false).is_none());
    assert!(pool[0].is_some());
    assert_eq!(at, 0);
}

#[test]
fn a_region_without_closing_brace_is_none() {
    let mut pool = vec![Some(state_a())];
    let data = lines(&["region_a = {", "\tstates = { STATE_A }"]);
    let mut at = 0;
    let r = StrategicRegion::read(&data, &mut at, &mut pool, 0, false).unwrap().unwrap();
    assert!(r.is_none());
    assert!(pool[0].is_none());
}

#[test]
fn regions_read_from_one_pool_share_no_state() {
    let mut pool = vec![Some(state_a()), Some(state_b())];
    let first = region_lines("\tstates = { STATE_A }", "\tcapital_province = x0A0B0C");
    let second = region_lines("\tstates = { STATE_A STATE_B }", "\tcapital_province = x0A0B0C");
    let mut at = 0;
    let r1 = StrategicRegion::new(&first, &mut at, &mut pool, 0, false).unwrap().unwrap();
    let mut at = 0;
    let r2 = StrategicRegion::new(&second, &mut at, &mut pool, r1.size(), false).unwrap().unwrap();
    assert_eq!(r1.size(), 2);
    assert_eq!(r2.size(), 1);
    assert_eq!(r2.states()[0].name(), "STATE_B");
    assert_eq!(r2.get_number([255, 238, 0]).unwrap(), Some((2, 1)));
}
