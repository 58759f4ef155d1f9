use cornetroll::DisplayFormat as D;
use cornetroll::MetaFormat as M;
use cornetroll::{
    process_display_format, process_meta_format, DisplayFormat, DisplayFormatError,
    MetaFormatError, DEFAULT_DISPLAY_FORMAT, DEFAULT_META_FORMAT,
};

#[test]
fn test_display_format() {

    assert_eq!(process_display_format(DEFAULT_DISPLAY_FORMAT).unwrap(), [
        D::Prev, D::String(" ".to_string()), D::PlayPause, D::String(" ".to_string()),
        D::Next, D::String(" ".to_string()), D::PlayerInfo(true, true),
        D::String(" ┃ ".to_string()), D::Metadata(32, 10),
    ]);

    assert_eq!(process_display_format("[[]").is_err(), true);
    assert_eq!(process_display_format("[prev]").unwrap(), [D::Prev]);
    assert_eq!(process_display_format("[metadata:]").unwrap(), [D::Metadata(32, 10)]);
    assert_eq!(process_display_format("[metadata:,]").unwrap(), [D::Metadata(32, 10)]);
    assert_eq!(process_display_format("[metadata:,11]").unwrap(), [D::Metadata(32, 11)]);
    assert_eq!(process_display_format("[metadata:,,]").is_err(), true);
    assert_eq!(process_display_format("[metadata:,,11]").is_err(), true);
}

#[test]
fn test_meta_format() {

    assert_eq!(process_meta_format(DEFAULT_META_FORMAT).unwrap(), [
        M::Optional(vec![M::Artist, M::String(" - ".to_string())]), M::Title,
    ]);
}

#[test]
fn empty_metadata_arguments_take_defaults() {
    assert_eq!(process_display_format("[metadata:]").unwrap(), [DisplayFormat::Metadata(32, 10)]);
    assert_eq!(process_display_format("[metadata:,]").unwrap(), [DisplayFormat::Metadata(32, 10)]);
}

#[test]
fn second_metadata_argument_sets_dwell() {
    assert_eq!(process_display_format("[metadata:,11]").unwrap(), [DisplayFormat::Metadata(32, 11)]);
}

#[test]
fn three_empty_metadata_arguments_are_too_many() {
    match process_display_format("[metadata:,,]") {
        Err(DisplayFormatError::ArgumentCount(pos, name, expected, got)) => {
            assert_eq!((pos, name.as_str(), expected, got), (12, "metadata", 2, 3));
        }
        other => panic!("unexpected result {:?}", other),
    }
}

#[test]
fn three_metadata_arguments_are_too_many() {
    match process_display_format("[metadata:,,11]") {
        Err(DisplayFormatError::ArgumentCount(pos, name, expected, got)) => {
            assert_eq!((pos, name.as_str(), expected, got), (12, "metadata", 2, 3));
        }
        other => panic!("unexpected result {:?}", other),
    }
}

#[test]
fn nested_bracket_is_unexpected() {
    assert!(matches!(process_display_format("[[]"), Err(DisplayFormatError::Unexpected(1, '['))));
}

#[test]
fn blocks_follow_brackets_in_order() {
    let r = process_display_format("a[time] b [status][info:false][next]c").unwrap();
    assert_eq!(r, [
        D::String("a".to_string()), D::Time(true, false), D::String(" b ".to_string()), D::Status,
        D::PlayerInfo(false, true), D::Next, D::String("c".to_string()),
    ]);
    let non_literal = r.iter().filter(|b| !matches!(b, D::String(_))).count();
    assert_eq!(non_literal, 4);
}

#[test]
fn arguments_are_trimmed_and_typed() {
    assert_eq!(process_display_format("[ metadata : 20 , 4 ]").unwrap(), [D::Metadata(20, 4)]);
    assert_eq!(process_display_format("[time:false,true]").unwrap(), [D::Time(false, true)]);
    assert_eq!(process_display_format("[info:,false]").unwrap(), [D::PlayerInfo(true, false)]);
    assert_eq!(process_display_format("[metadata:+7]").unwrap(), [D::Metadata(7, 10)]);
}

#[test]
fn escapes_make_literal_text() {
    assert_eq!(process_display_format("a\\[b\\]\\\\c").unwrap(), [D::String("a[b]\\c".to_string())]);
    assert_eq!(process_display_format("x: y, z").unwrap(), [D::String("x: y, z".to_string())]);
}

#[test]
fn display_errors_carry_positions() {
    assert!(matches!(process_display_format("ab]"), Err(DisplayFormatError::Unexpected(2, ']'))));
    assert!(matches!(process_display_format("[a\\b]"), Err(DisplayFormatError::Unexpected(2, '\\'))));
    match process_display_format("x[ foo ]") {
        Err(DisplayFormatError::UnknownBlock(pos, name)) => assert_eq!((pos, name.as_str()), (2, "foo")),
        other => panic!("unexpected result {:?}", other),
    }
    assert!(matches!(process_display_format("[info:5]"), Err(DisplayFormatError::WrongArgumentType(6))));
    assert!(matches!(process_display_format("[metadata:3,true]"), Err(DisplayFormatError::WrongArgumentType(12))));
    assert!(matches!(process_display_format("[info:x]"), Err(DisplayFormatError::InvalidArgument(6))));
    assert!(matches!(process_display_format("[metadata:256]"), Err(DisplayFormatError::InvalidArgument(10))));
    match process_display_format("[prev:1]") {
        Err(DisplayFormatError::ArgumentCount(pos, name, expected, got)) => {
            assert_eq!((pos, name.as_str(), expected, got), (6, "prev", 0, 1));
        }
        other => panic!("unexpected result {:?}", other),
    }
}

#[test]
fn display_error_messages() {
    assert_eq!(process_display_format("ab]").unwrap_err().message(), "at 2: unexpected ']'");
    assert_eq!(
        process_display_format("[metadata:,,11]").unwrap_err().message(),
        "at 12: expected 2 arguments for block 'metadata', got 3"
    );
    assert_eq!(process_display_format("[foo]").unwrap_err().message(), "at 1: unknown block 'foo'");
    assert_eq!(process_display_format("[info:x]").unwrap_err().message(), "at 6: invalid argument");
    assert_eq!(process_display_format("[info:5]").unwrap_err().message(), "at 6: wrong argument type");
}

#[test]
fn optional_group_parses_to_tree() {
    assert_eq!(process_meta_format("<[artist] - >[title]").unwrap(), [
        M::Optional(vec![M::Artist, M::String(" - ".to_string())]), M::Title,
    ]);
}

#[test]
fn meta_format_nests_and_escapes() {
    assert_eq!(process_meta_format("<<[ album ]>, [track]>[artists]").unwrap(), [
        M::Optional(vec![M::Optional(vec![M::Album]), M::String(", ".to_string()), M::Track]), M::Artists,
    ]);
    assert_eq!(process_meta_format("a\\<b\\>\\[c").unwrap(), [M::String("a<b>[c".to_string())]);
    assert_eq!(process_meta_format("[album_artist]").unwrap(), [M::AlbumArtist]);
}

#[test]
fn meta_errors() {
    assert!(matches!(process_meta_format("<[title]"), Err(MetaFormatError::UnclosedOptional)));
    assert!(matches!(process_meta_format("a>"), Err(MetaFormatError::Unexpected(1, '>'))));
    assert!(matches!(process_meta_format("[ti[tle]"), Err(MetaFormatError::Unexpected(3, '['))));
    assert!(matches!(process_meta_format("x]"), Err(MetaFormatError::Unexpected(1, ']'))));
    match process_meta_format("ab[genre]") {
        Err(MetaFormatError::UnknownBlock(pos, name)) => assert_eq!((pos, name.as_str()), (3, "genre")),
        other => panic!("unexpected result {:?}", other),
    }
    assert_eq!(process_meta_format("<").unwrap_err().message(), ": reached end-of-line with an unclosed optional tag");
    assert_eq!(process_meta_format("[x]").unwrap_err().message(), "at 1: unknown block 'x'");
}

#[test]
fn unfinished_display_template_is_rejected() {
    assert!(matches!(process_display_format("x[a"), Err(DisplayFormatError::Unexpected(1, '['))));
    assert!(matches!(process_display_format("x[prev:c"), Err(DisplayFormatError::Unexpected(1, '['))));
    assert!(matches!(process_display_format("[prev] [info:true,"), Err(DisplayFormatError::Unexpected(7, '['))));
    assert!(matches!(process_display_format("ab\\"), Err(DisplayFormatError::Unexpected(2, '\\'))));
}

#[test]
fn plain_display_text_is_one_literal() {
    assert_eq!(process_display_format("a: b, c").unwrap(), [D::String("a: b, c".to_string())]);
    assert_eq!(process_display_format("").unwrap(), []);
}

#[test]
fn unfinished_meta_template_is_rejected() {
    assert!(matches!(process_meta_format("x[ti"), Err(MetaFormatError::Unexpected(1, '['))));
    assert!(matches!(process_meta_format("x[a"), Err(MetaFormatError::Unexpected(1, '['))));
    assert!(matches!(process_meta_format("<[ti"), Err(MetaFormatError::Unexpected(1, '['))));
    assert!(matches!(process_meta_format("ab\\"), Err(MetaFormatError::Unexpected(2, '\\'))));
}

#[test]
fn plain_meta_text_is_one_literal() {
    assert_eq!(process_meta_format("a: b, c").unwrap(), [M::String("a: b, c".to_string())]);
    assert_eq!(process_meta_format("").unwrap(), []);
}

#[test]
fn colon_always_opens_one_argument() {
    match process_display_format("[prev:]") {
        Err(DisplayFormatError::ArgumentCount(pos, name, expected, got)) => {
            assert_eq!((pos, name.as_str(), expected, got), (6, "prev", 0, 1));
        }
        other => panic!("unexpected result {:?}", other),
    }
    match process_display_format("[status:]") {
        Err(DisplayFormatError::ArgumentCount(pos, name, expected, got)) => {
            assert_eq!((pos, name.as_str(), expected, got), (8, "status", 0, 1));
        }
        other => panic!("unexpected result {:?}", other),
    }
    assert_eq!(process_display_format("[metadata:]").unwrap(), [D::Metadata(32, 10)]);
    assert_eq!(process_display_format("[info: ]").unwrap(), [D::PlayerInfo(true, true)]);
}

#[test]
fn meta_format_clones_whole_tree() {
    let tree = process_meta_format("<<[album]> - [title]>x").unwrap();
    let copy = tree.clone();
    assert_eq!(copy, tree);
}
