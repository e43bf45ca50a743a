use frcc::card_gen::{back_card, gen_fiducial, printout_config, printout_path, try_gen_fiducial};
use frcc::decimal::{fmt_i32, parse_i32};

#[test]
fn demo_cards() {
    let demo = frcc::card_gen::test();
    assert_eq!(demo.back.id, "FRCC-12345678910");
    assert_eq!(demo.back.output_path, Some("back.png".to_string()));
    assert!(demo.back.fiducial.as_ref().unwrap().contains("<svg"));
    assert_eq!(demo.front.name, "Ferris");
    assert_eq!(demo.front.number, "4533");
    assert_eq!(demo.front.image_path, "../../../temp/rustacean.png");
    assert_eq!(demo.front.abilities.len(), 2);
    assert_eq!(demo.front.abilities[0].name, "Ability 1");
    assert_eq!(demo.front.abilities[1].level, 2);
    assert_eq!(demo.front.abilities[1].amount, "L2");
    assert_eq!(demo.front.output_path, Some("front.png".to_string()));
}

#[test]
fn fiducials_are_svg_and_depend_on_the_id() {
    let a = try_gen_fiducial("FRCC-1".to_string()).unwrap();
    let b = gen_fiducial("FRCC-2".to_string());
    assert!(a.starts_with("<svg"));
    assert!(a.contains("rect"));
    assert_ne!(a, b);
    assert_eq!(a, gen_fiducial("FRCC-1".to_string()));
    let back = back_card("FRCC-1".to_string(), None);
    assert_eq!(back.fiducial, Some(a));
    assert_eq!(back.output_path, None);
}

#[test]
fn fiducials_of_overlong_ids_are_refused() {
    let long = "x".repeat(4097);
    assert_eq!(try_gen_fiducial(long.clone()), None);
    assert_eq!(back_card(long, None).fiducial, None);
}

#[test]
fn printout_plan() {
    assert_eq!(printout_path("abc"), "printouts/abc.pdf");
    let cfg = printout_config(&vec!["x1".to_string(), "y2".to_string()]);
    assert_eq!(cfg.len(), 2);
    assert_eq!(cfg[0].front, "front.png");
    assert_eq!(cfg[0].back, "x1.png");
    assert_eq!(cfg[1].back, "y2.png");
    assert_eq!(printout_config(&Vec::new()).len(), 0);
}

#[test]
fn team_numbers_parse_like_str_parse() {
    assert_eq!(parse_i32("4533"), Some(4533));
    assert_eq!(parse_i32("-7"), Some(-7));
    assert_eq!(parse_i32("+5"), Some(5));
    assert_eq!(parse_i32("007"), Some(7));
    assert_eq!(parse_i32("2147483647"), Some(i32::MAX));
    assert_eq!(parse_i32("-2147483648"), Some(i32::MIN));
    assert_eq!(parse_i32("2147483648"), None);
    assert_eq!(parse_i32(""), None);
    assert_eq!(parse_i32("-"), None);
    assert_eq!(parse_i32("12 "), None);
    assert_eq!(parse_i32("1e3"), None);
}

#[test]
fn team_numbers_print_and_parse_back() {
    for v in [0, 1, -1, 42, 4533, i32::MAX, i32::MIN, -100] {
        let s = fmt_i32(v);
        assert_eq!(s, v.to_string());
        assert_eq!(parse_i32(&s), Some(v));
    }
}
