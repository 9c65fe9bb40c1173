use gd_icon_renderer::parse::parse_int;
use gd_icon_renderer::parse::parse_thousandths;
use gd_icon_renderer::parse::parse_vec_thousandths;
use gd_icon_renderer::parse::parse_rect_vecs;
use gd_icon_renderer::parse::parse_vec;

#[test]
fn parse_vec_reads_a_pair() {
    assert_eq!(parse_vec("{1,2}"), Some((1, 2)));
    assert_eq!(parse_vec("{-17,+4}"), Some((-17, 4)));
    assert_eq!(parse_vec("{ 12 ,\t007 }"), Some((12, 7)));
    assert_eq!(parse_vec("{2147483647,-2147483648}"), Some((i32::MAX, i32::MIN)));
}

#[test]
fn parse_vec_drops_the_first_and_last_character_whatever_they_are() {
    assert_eq!(parse_vec("(3,4)"), Some((3, 4)));
    assert_eq!(parse_vec("x5,6y"), Some((5, 6)));
}

#[test]
fn parse_vec_takes_the_first_two_of_more() {
    assert_eq!(parse_vec("{1,2,3}"), Some((1, 2)));
    assert_eq!(parse_vec("{1,2,x}"), None);
    assert_eq!(parse_vec("{1,2,}"), None);
}

#[test]
fn parse_vec_refuses_what_is_no_pair() {
    assert_eq!(parse_vec(""), None);
    assert_eq!(parse_vec("{"), None);
    assert_eq!(parse_vec("{}"), None);
    assert_eq!(parse_vec("{1}"), None);
    assert_eq!(parse_vec("{1,}"), None);
    assert_eq!(parse_vec("{,2}"), None);
    assert_eq!(parse_vec("{1.5,2}"), None);
    assert_eq!(parse_vec("{1,2 3}"), None);
    assert_eq!(parse_vec("{-,2}"), None);
    assert_eq!(parse_vec("{+-1,2}"), None);
    assert_eq!(parse_vec("{2147483648,0}"), None);
    assert_eq!(parse_vec("{-2147483649,0}"), None);
    assert_eq!(parse_vec("{99999999999999999999999999,0}"), None);
    assert_eq!(parse_vec("\u{e9}1,2}"), None);
    assert_eq!(parse_vec("{1,2\u{e9}"), None);
}

#[test]
fn parse_vec_trims_unicode_white_space() {
    assert_eq!(parse_vec("{\u{a0}1\u{2003},\u{3000}2}"), Some((1, 2)));
    assert_eq!(parse_vec("{\u{200b}1,2}"), None);
}

#[test]
fn parse_rect_vecs_reads_two_pairs() {
    assert_eq!(parse_rect_vecs("{{1,2},{3,4}}"), Some(((1, 2), (3, 4))));
    assert_eq!(parse_rect_vecs("{{0, 0}, {120, -64}}"), Some(((0, 0), (120, -64))));
    assert_eq!(parse_rect_vecs("1,2,3,4"), Some(((1, 2), (3, 4))));
    assert_eq!(parse_rect_vecs("{1},{2},{3},{4},{5}"), Some(((1, 2), (3, 4))));
    assert_eq!(parse_rect_vecs("1{}2,3,4,5"), Some(((12, 3), (4, 5))));
}

#[test]
fn parse_rect_vecs_refuses_what_is_no_rectangle() {
    assert_eq!(parse_rect_vecs(""), None);
    assert_eq!(parse_rect_vecs("{{1,2},{3}}"), None);
    assert_eq!(parse_rect_vecs("{{1,2},{3,}}"), None);
    assert_eq!(parse_rect_vecs("{{1,2},{3,a}}"), None);
    assert_eq!(parse_rect_vecs("{{1,2},{3,4},}"), None);
    assert_eq!(parse_rect_vecs("{{1,2},{3,4000000000}}"), None);
}

#[test]
fn parse_vec_thousandths_reads_decimal_pairs() {
    assert_eq!(parse_vec_thousandths("{0.5,-2}"), Some((500, -2000)));
    assert_eq!(parse_vec_thousandths("{1,1}"), Some((1000, 1000)));
    assert_eq!(parse_vec_thousandths("{-6.25, 7.125}"), Some((-6250, 7125)));
    assert_eq!(parse_vec_thousandths("{.5,5.}"), Some((500, 5000)));
    assert_eq!(parse_vec_thousandths("{+0.001,-0.0019}"), Some((1, -1)));
    assert_eq!(parse_vec_thousandths("{0.12345,-0}"), Some((123, 0)));
    assert_eq!(parse_vec_thousandths("{2147483.647,-2147483.648}"), Some((i32::MAX, i32::MIN)));
}

#[test]
fn parse_vec_thousandths_refuses_what_is_no_pair() {
    assert_eq!(parse_vec_thousandths("{.,1}"), None);
    assert_eq!(parse_vec_thousandths("{1.2.3,1}"), None);
    assert_eq!(parse_vec_thousandths("{1e3,1}"), None);
    assert_eq!(parse_vec_thousandths("{1}"), None);
    assert_eq!(parse_vec_thousandths("{nan,1}"), None);
    assert_eq!(parse_vec_thousandths("{2147483.648,0}"), None);
    assert_eq!(parse_vec_thousandths("{-2147483.649,0}"), None);
    assert_eq!(parse_vec_thousandths("{2147484,0}"), None);
    assert_eq!(parse_vec_thousandths("{1.5x,0}"), None);
    assert_eq!(parse_vec_thousandths(""), None);
}

#[test]
fn parse_thousandths_reads_one_number() {
    assert_eq!(parse_thousandths("-32.5"), Some(-32500));
    assert_eq!(parse_thousandths("90"), Some(90000));
    assert_eq!(parse_thousandths("0.0"), Some(0));
    assert_eq!(parse_thousandths("12.3456789"), Some(12345));
    assert_eq!(parse_thousandths(" 1"), None);
    assert_eq!(parse_thousandths("1 "), None);
    assert_eq!(parse_thousandths(""), None);
    assert_eq!(parse_thousandths("-"), None);
    assert_eq!(parse_thousandths("-."), None);
}

#[test]
fn parse_int_reads_one_number() {
    assert_eq!(parse_int("-7"), Some(-7));
    assert_eq!(parse_int("+12"), Some(12));
    assert_eq!(parse_int("0012"), Some(12));
    assert_eq!(parse_int("2147483647"), Some(i32::MAX));
    assert_eq!(parse_int("-2147483648"), Some(i32::MIN));
    assert_eq!(parse_int("2147483648"), None);
    assert_eq!(parse_int("1.0"), None);
    assert_eq!(parse_int(" 1"), None);
    assert_eq!(parse_int(""), None);
    assert_eq!(parse_int("+"), None);
}

#[test]
fn parsing_agrees_with_the_standard_library_on_whole_numbers() {
    for text in ["0", "-0", "+0", "7", "-13", "000", "99999", "-2147483648", "2147483647", "a", "1a", "--1", "١"] {
        assert_eq!(parse_int(text), text.parse::<i32>().ok(), "{}", text);
    }
}
