use ehdl::aniyomi::AniyomiMeta;
use ehdl::config::{AppConfig, Config};
use ehdl::gallery::{Gallery, Image, Tag, TagType};
use ehdl::logger::{parse_log_level, LevelToStrError, LogLevel};
use ehdl::parser::{pages_needed, parse_u64, ParseError};
use ehdl::version::{get_features, get_version};

#[test]
fn gallery_keeps_its_images_in_order() {
    let mut g = Gallery::new();
    assert_eq!(g.len(), 0);
    g.set_title(String::from("T"));
    let mut a = Image::new(&String::from("http://a"));
    a.set_filename(String::from("a.png"));
    let mut b = Image::new(&String::from("http://b"));
    b.set_filename(String::from("b.png"));
    g.add_image(a);
    g.add_image(b);
    assert_eq!(g.len(), 2);
    assert_eq!(g.title(), "T");
    assert_eq!(g.images()[0].get_filename(), "a.png");
    assert_eq!(g.images()[1].get_filename(), "b.png");
    assert_eq!(g.images()[0].get_url(), "http://a");
}

#[test]
fn image_setters_replace_the_fields() {
    let mut img = Image::new(&String::from("old"));
    img.set_url(String::from("new"));
    img.set_filename(String::from("f.jpg"));
    assert_eq!(img.get_url(), "new");
    assert_eq!(img.get_filename(), "f.jpg");
}

#[test]
fn tag_names_fold_case_and_default_to_other() {
    assert_eq!(TagType::of_name("artist"), TagType::Artist);
    assert_eq!(TagType::of_name("Artist"), TagType::Artist);
    assert_eq!(TagType::of_name("FEMALE"), TagType::Female);
    assert_eq!(TagType::of_name("reclass"), TagType::ReClass);
    assert_eq!(TagType::of_name("parody"), TagType::Parody);
    assert_eq!(TagType::of_name("character"), TagType::Character);
    assert_eq!(TagType::of_name("language"), TagType::Language);
    assert_eq!(TagType::of_name("male"), TagType::Male);
    assert_eq!(TagType::of_name("something else"), TagType::Other);
    assert_eq!(TagType::Artist.name(), "artist");
    assert_eq!(TagType::Other.name(), "other");
}

#[test]
fn tags_find_the_first_match() {
    let mut g = Gallery::new();
    g.add_tag(String::from("artist"), String::from("someone"));
    g.add_tag(String::from("female"), String::from("tall"));
    g.add_tag(String::from("artist"), String::from("other one"));
    let tags = g.tags();
    let hit = tags.get(|t: &Tag| *t.tag_type() == TagType::Artist);
    assert_eq!(hit.unwrap().tag_value(), "someone");
    let miss = tags.get(|t: &Tag| *t.tag_type() == TagType::Parody);
    assert!(miss.is_none());
    assert_eq!(tags.inner().len(), 3);
}

#[test]
fn metadata_takes_the_first_artist_and_keeps_the_rest_as_genres() {
    let mut g = Gallery::new();
    g.set_title(String::from("Book"));
    g.add_tag(String::from("language"), String::from("english"));
    g.add_tag(String::from("artist"), String::from("someone"));
    g.add_tag(String::from("female"), String::from("tall"));
    let meta = AniyomiMeta::from_gallery(&g);
    assert_eq!(meta.title(), "Book");
    assert_eq!(meta.artist(), "someone");
    let lines = meta.genre_lines();
    assert_eq!(lines.len(), 2);
    assert_eq!(lines[0], "language: english");
    assert_eq!(lines[1], "female: tall");
}

#[test]
fn metadata_constructor_keeps_its_fields() {
    let meta = AniyomiMeta::new(String::from("T"), String::from("A"), Vec::new());
    assert_eq!(meta.title(), "T");
    assert_eq!(meta.artist(), "A");
    assert!(meta.genre_lines().is_empty());
}

#[test]
fn log_levels_parse_exactly() {
    assert_eq!(parse_log_level("off").unwrap(), LogLevel::Off);
    assert_eq!(parse_log_level("trace").unwrap(), LogLevel::Trace);
    assert_eq!(parse_log_level("debug").unwrap(), LogLevel::Debug);
    assert_eq!(parse_log_level("info").unwrap(), LogLevel::Info);
    assert_eq!(parse_log_level("warn").unwrap(), LogLevel::Warn);
    assert_eq!(parse_log_level("error").unwrap(), LogLevel::Error);
    match parse_log_level("loud") {
        Err(LevelToStrError::NoSuchValue(v)) => assert_eq!(v, "loud"),
        _ => panic!("expected a refusal naming the input"),
    }
    let e = LevelToStrError::NoSuchValue(String::from("loud"));
    assert_eq!(e.describe(), "No such log level: loud");
    assert_eq!(LogLevel::default(), LogLevel::Info);
    assert_eq!(LogLevel::Warn.name(), "warn");
}

#[test]
fn version_names_the_build() {
    assert_eq!(get_version(), "ehdl v0.1.0 w/aniyomi,zip,config,cli");
    let features = get_features();
    assert_eq!(features, vec!["aniyomi", "zip", "config", "cli"]);
}

#[test]
fn default_config_enables_everything_but_the_loader() {
    let c = Config::default();
    assert_eq!(c.app.features, vec!["aniyomi", "zip", "cli"]);
    assert_eq!(c.app.log_level, LogLevel::Info);
    assert!(c.aniyomi.description.is_none());
    assert!(!c.aniyomi.rename);
    assert!(!c.zip.delete_original);
    let a = AppConfig::default();
    assert_eq!(a.log_level, LogLevel::Info);
}

#[test]
fn decimal_fields_parse_exactly() {
    assert_eq!(parse_u64("0").unwrap(), 0);
    assert_eq!(parse_u64("40").unwrap(), 40);
    assert_eq!(parse_u64("18446744073709551615").unwrap(), u64::MAX);
    assert!(matches!(parse_u64(""), Err(ParseError::IntParseError(_))));
    assert!(matches!(parse_u64("12a"), Err(ParseError::IntParseError(_))));
    assert!(matches!(parse_u64("18446744073709551616"), Err(ParseError::IntParseError(_))));
    let e = ParseError::NoCapture;
    assert_eq!(e.describe(), "expected to parse something, got nothing");
    let f = ParseError::IntParseError(String::from("x"));
    assert_eq!(f.describe(), "error while parsing int: x");
}

#[test]
fn gallery_links_are_found_in_order() {
    let text = "see https://e-hentai.org/g/1234567/abcdef0123 and then\n\
                https://e-hentai.org/g/7654321/0123456789 too";
    let links = ehdl::parser::get_all_galleries(text);
    assert_eq!(
        links,
        vec![
            "https://e-hentai.org/g/1234567/abcdef0123",
            "https://e-hentai.org/g/7654321/0123456789",
        ]
    );
    // A short number, an upper-case token and a wrong host all miss.
    assert!(ehdl::parser::get_all_galleries("https://e-hentai.org/g/123456/abcdef0123x").is_empty());
    assert!(ehdl::parser::get_all_galleries("https://e-hentai.org/g/1234567/ABCDEF0123").is_empty());
    assert!(ehdl::parser::get_all_galleries("https://example.org/g/1234567/abcdef0123").is_empty());
    assert!(ehdl::parser::get_all_galleries("").is_empty());
}

#[test]
fn the_listing_line_is_read_exactly() {
    let caps = ehdl::parser::get_pagination("noise Showing 1 - 40 of 123 more noise").unwrap();
    assert_eq!(caps, (40, 123));
    let caps = ehdl::parser::get_pagination("Showing 1 - 7 of 7").unwrap();
    assert_eq!(caps, (7, 7));
    assert!(matches!(
        ehdl::parser::get_pagination("Showing 2 - 40 of 123"),
        Err(ParseError::NoCapture)
    ));
    assert!(matches!(
        ehdl::parser::get_pagination("Showing 1 - of 123"),
        Err(ParseError::NoCapture)
    ));
    assert!(matches!(ehdl::parser::get_pagination(""), Err(ParseError::NoCapture)));
    assert!(matches!(
        ehdl::parser::get_pagination("Showing 1 - 99999999999999999999 of 3"),
        Err(ParseError::IntParseError(_))
    ));
}

#[test]
fn pagination_rounds_up() {
    assert_eq!(pages_needed(0, 40), 0);
    assert_eq!(pages_needed(40, 40), 1);
    assert_eq!(pages_needed(41, 40), 2);
    assert_eq!(pages_needed(1, 40), 1);
    assert_eq!(pages_needed(80, 40), 2);
}

#[test]
fn scraped_tag_tables_replace_on_repeat() {
    let mut t = ehdl::parsers::Tags::new();
    assert_eq!(t.len(), 0);
    t.add_tag(String::from("artist"), String::from("one"));
    t.add_tag(String::from("female"), String::from("tall"));
    t.add_tag(String::from("artist"), String::from("two"));
    assert_eq!(t.len(), 2);
    assert_eq!(t.get_value("artist").unwrap(), "two");
    assert_eq!(t.get_value("female").unwrap(), "tall");
    assert!(t.get_value("male").is_none());

    let mut u = ehdl::tag::Tags::new();
    u.feed_tag(String::from("language"), String::from("english"));
    u.feed_tag(String::from("language"), String::from("japanese"));
    assert_eq!(u.len(), 1);
}
