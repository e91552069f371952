use rmenu::config::{
    parse_mark, BaseConfig, CalendarConfig, Config, Orientation, ScaleConfig, WidgetConfig,
};

#[test]
fn base_config_defaults() {
    let b = BaseConfig::new(None, None, "0", "0", None, 0).unwrap();
    assert_eq!((b.width, b.height, b.posx, b.posy), (0, 0, 0, 0));
    assert_eq!(b.class, "");
    assert!(!b.close_unfocus);
}

#[test]
fn base_config_values() {
    let b = BaseConfig::new(Some("300"), Some("+20"), "-5", "7", Some("dlg"), 1).unwrap();
    assert_eq!((b.width, b.height, b.posx, b.posy), (300, 20, -5, 7));
    assert_eq!(b.class, "dlg");
    assert!(b.close_unfocus);
    let c = Config::new(b, WidgetConfig::Calendar(CalendarConfig::new()));
    assert_eq!(c.width(), 300);
    assert_eq!(c.height(), 20);
    assert_eq!(c.posx(), -5);
    assert_eq!(c.posy(), 7);
    assert_eq!(c.class(), "dlg");
    assert!(c.close_unfocus());
    assert!(matches!(c.widget_config(), WidgetConfig::Calendar(_)));
}

#[test]
fn base_config_errors() {
    assert_eq!(BaseConfig::new(Some("x"), None, "0", "0", None, 0).unwrap_err(), "Width is not an integer");
    assert_eq!(BaseConfig::new(None, Some(""), "0", "0", None, 0).unwrap_err(), "Height is not an integer");
    assert_eq!(BaseConfig::new(None, None, " 1", "0", None, 0).unwrap_err(), "posx is not an integer");
    assert_eq!(
        BaseConfig::new(None, None, "0", "2147483648", None, 0).unwrap_err(),
        "posy is not an integer"
    );
    assert!(!BaseConfig::new(None, None, "0", "0", None, 2).unwrap().close_unfocus);
    assert_eq!(BaseConfig::new(None, None, "-2147483648", "0", None, 0).unwrap().posx, i32::MIN);
}

#[test]
fn scale_config_values() {
    let s = ScaleConfig::new("100", "0", "40", "5", 1, 1, Some("half:50")).unwrap();
    assert_eq!((s.max_val(), s.min_val(), s.val(), s.step()), (100, 0, 40, 5));
    assert_eq!(s.orientation(), Orientation::Vertical);
    assert!(s.hide_value());
    assert_eq!(s.mark(), &Some((50, "half".to_string())));
    let s = ScaleConfig::new("10", "-10", "0", "1", 0, 0, None).unwrap();
    assert_eq!(s.orientation(), Orientation::Horizontal);
    assert!(!s.hide_value());
    assert_eq!(s.mark(), &None);
}

#[test]
fn scale_config_errors() {
    assert_eq!(ScaleConfig::new("a", "0", "0", "1", 0, 0, None).unwrap_err(), "max-value is not an integer");
    assert_eq!(ScaleConfig::new("1", "b", "0", "1", 0, 0, None).unwrap_err(), "min-value is not an integer");
    assert_eq!(ScaleConfig::new("1", "0", "c", "1", 0, 0, None).unwrap_err(), "value is not an integer");
    assert_eq!(ScaleConfig::new("1", "0", "0", "1.5", 0, 0, None).unwrap_err(), "step is not an integer");
    assert_eq!(
        ScaleConfig::new("1", "0", "0", "1", 0, 0, Some("half")).unwrap_err(),
        "mark argument provided but not position"
    );
    assert_eq!(
        ScaleConfig::new("1", "0", "0", "1", 0, 0, Some("half:x")).unwrap_err(),
        "not a valid position for a mark"
    );
}

#[test]
fn mark_pieces() {
    assert_eq!(parse_mark("a:3:ignored").unwrap(), (3, "a".to_string()));
    assert_eq!(parse_mark(":-4").unwrap(), (-4, "".to_string()));
    assert_eq!(parse_mark("a:").unwrap_err(), "not a valid position for a mark");
    assert_eq!(parse_mark("").unwrap_err(), "mark argument provided but not position");
}
