use spirograph::path::{path_data, picture};
use spirograph::rosette::rosette_sample_count;

fn pair(x: &str, y: &str) -> (String, String) {
    (x.to_string(), y.to_string())
}

#[test]
fn a_path_of_no_points_is_the_letter() {
    assert_eq!(path_data(&Vec::new()), "M");
}

#[test]
fn points_are_led_by_a_space_and_parted_by_a_comma() {
    assert_eq!(path_data(&vec![pair("400.00", "250.00")]), "M 400.00,250.00");
    assert_eq!(
        path_data(&vec![pair("1", "2"), pair("-3.5", "4"), pair("5", "6e3")]),
        "M 1,2 -3.5,4 5,6e3"
    );
}

#[test]
fn a_path_keeps_every_point_in_order() {
    let points: Vec<(String, String)> =
        (0..50).map(|i| (format!("{}", i), format!("{}", i * i))).collect();
    let path = path_data(&points);
    let mut parts = path.split(' ');
    assert_eq!(parts.next(), Some("M"));
    for (x, y) in &points {
        assert_eq!(parts.next().unwrap(), format!("{},{}", x, y));
    }
    assert_eq!(parts.next(), None);
}

#[test]
fn the_rosette_path_has_1001_pairs() {
    let count = rosette_sample_count();
    let points: Vec<(String, String)> = (0..count)
        .map(|i| {
            let t = i as f64 * 0.01;
            let x = 250.0 + 100.0 * (3.0 * t).cos() + 50.0 * (2.0 * t).cos();
            let y = 250.0 + 100.0 * (3.0 * t).sin() + 50.0 * (2.0 * t).sin();
            (format!("{:.2}", x), format!("{:.2}", y))
        })
        .collect();
    let path = path_data(&points);
    assert!(path.starts_with("M 400.00,250.00 "));
    assert!(!path.ends_with('\n'));
    assert!(!path.ends_with(' '));
    assert_eq!(path.split(' ').count(), 1002);
    assert_eq!(path.matches(',').count(), 1001);
    let text = picture(&path);
    assert!(text.ends_with("\" stroke=\"black\" fill=\"none\" stroke-width=\"2\"/></svg>"));
    assert!(text.contains(&path));
}

#[test]
fn a_picture_wraps_its_path() {
    assert_eq!(
        picture("M 1,2"),
        "<svg xmlns=\"http://www.w3.org/2000/svg\" width=\"500\" height=\"500\"><path d=\"M 1,2\" stroke=\"black\" fill=\"none\" stroke-width=\"2\"/></svg>"
    );
}
