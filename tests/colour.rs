use raytracer::colour::write_colour;
use raytracer::util::{percent_done, throbber};

#[test]
fn write_colour_formats_one_line() {
    let mut buf = Vec::new();
    write_colour(&mut buf, &[255, 0, 7]);
    assert_eq!(buf, b"255 0 7\n".to_vec());
}

#[test]
fn write_colour_appends() {
    let mut buf = b"# pixels\n".to_vec();
    write_colour(&mut buf, &[10, 100, 9]);
    write_colour(&mut buf, &[0, 0, 0]);
    assert_eq!(String::from_utf8(buf).unwrap(), "# pixels\n10 100 9\n0 0 0\n");
}

#[test]
fn write_colour_matches_decimal_formatting() {
    for v in 0..=255u8 {
        let mut buf = Vec::new();
        write_colour(&mut buf, &[v, 255 - v, v / 3]);
        assert_eq!(String::from_utf8(buf).unwrap(), format!("{} {} {}\n", v, 255 - v, v / 3));
    }
}

#[test]
fn throbber_cycles_through_six_frames() {
    let frames = ["  .", " ..", "...", ".. ", ".  ", "   "];
    for x in 0..18usize {
        assert_eq!(throbber(x), frames[x % 6]);
    }
    assert_eq!(throbber(usize::MAX), frames[usize::MAX % 6]);
}

#[test]
fn percent_done_counts_from_the_top() {
    assert_eq!(percent_done(225, 224), 0);
    assert_eq!(percent_done(225, 112), 50);
    assert_eq!(percent_done(225, 0), 100);
    assert_eq!(percent_done(3, 1), 66);
    assert_eq!(percent_done(1, 0), 100);
    assert_eq!(percent_done(usize::MAX, 0), 100);
    assert_eq!(percent_done(usize::MAX, usize::MAX / 2), 50);
}
