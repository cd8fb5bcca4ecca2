use sokoban::collection::{load_levels, load_slc, ContainerEvent};
use sokoban::error::SokobanError;
use sokoban::game::{Direction, InvalidChar, Position};

const TWO_LEVELS: &str = r#"<?xml version="1.0" encoding="ISO-8859-1"?>
<SokobanLevels>
  <LevelCollection>
    <Level Id="First" Width="5" Height="3">
      <L> ####</L>
      <L>#@$.#</L>
      <L> ####</L>
    </Level>
    <Level Id="Second" Width="3" Height="1">
      <L>+$ </L>
    </Level>
  </LevelCollection>
</SokobanLevels>
"#;

#[test]
fn two_levels_in_document_order() {
    let levels = load_slc(TWO_LEVELS.as_bytes()).unwrap();
    assert_eq!(levels.len(), 2);
    assert_eq!(levels[0].title(), "First");
    assert_eq!(levels[1].title(), "Second");
    assert_eq!(levels[0].extents(), (5, 3));
    assert!(levels[0].is_player(&Position::new(1, 1)));
    assert!(levels[0].is_box(&Position::new(1, 2)));
    assert!(levels[1].is_player(&Position::new(0, 0)));
    assert!(levels[1].is_square(&Position::new(0, 0)));
    assert_eq!(levels[1].extents(), (2, 1));
}

#[test]
fn loaded_level_can_be_played() {
    let mut levels = load_slc(TWO_LEVELS.as_bytes()).unwrap();
    levels[0].step(Direction::Right);
    assert!(levels[0].is_completed());
    assert_eq!(levels[0].get_steps(), 1);
}

#[test]
fn one_line_per_l_element() {
    let doc = "<Levels><Level Id=\"a\"><L>@</L><L> #</L></Level></Levels>";
    let levels = load_slc(doc.as_bytes()).unwrap();
    assert!(levels[0].is_wall(&Position::new(1, 1)));
    assert_eq!(levels[0].extents(), (2, 2));
}

#[test]
fn level_without_id_keeps_last_title() {
    let doc = "<C><Level Id=\"one\"><L>@</L></Level><Level><L>@</L></Level></C>";
    let levels = load_slc(doc.as_bytes()).unwrap();
    assert_eq!(levels[0].title(), "one");
    assert_eq!(levels[1].title(), "one");
}

#[test]
fn text_outside_l_is_ignored() {
    let doc = "<C><Title>#x#</Title><Level Id=\"t\"><Note>x</Note><L>@.</L></Level></C>";
    let levels = load_slc(doc.as_bytes()).unwrap();
    assert_eq!(levels.len(), 1);
    assert!(levels[0].is_square(&Position::new(0, 1)));
}

#[test]
fn bad_grid_character_aborts_load() {
    let doc = "<C><Level Id=\"ok\"><L>@</L></Level><Level Id=\"bad\"><L>@</L><L> x</L></Level></C>";
    match load_slc(doc.as_bytes()) {
        Err(SokobanError::ParseError(e)) => assert_eq!(e, InvalidChar('x', Position::new(1, 1))),
        _ => panic!("expected a parse error"),
    }
}

#[test]
fn malformed_document_is_an_error() {
    let doc = "<C><Level Id=\"a\"><L>@</L></Level>";
    assert!(matches!(load_slc(doc.as_bytes()), Err(SokobanError::XmlError(_))));
    let doc = "<C><Level></C>";
    assert!(matches!(load_slc(doc.as_bytes()), Err(SokobanError::XmlError(_))));
}

#[test]
fn empty_collection_gives_no_levels() {
    let levels = load_slc("<C></C>".as_bytes()).unwrap();
    assert!(levels.is_empty());
}

#[test]
fn load_from_events() {
    let events = vec![
        ContainerEvent::Start {
            name: String::from("Level"),
            attributes: vec![(String::from("Width"), String::from("2")), (String::from("Id"), String::from("E"))],
        },
        ContainerEvent::Start { name: String::from("L"), attributes: vec![] },
        ContainerEvent::Text(String::from("@$.")),
        ContainerEvent::End { name: String::from("L") },
        ContainerEvent::Text(String::from("ignored x")),
        ContainerEvent::Other,
        ContainerEvent::End { name: String::from("Level") },
    ];
    let levels = load_levels(&events).unwrap();
    assert_eq!(levels.len(), 1);
    assert_eq!(levels[0].title(), "E");
    assert_eq!(levels[0].extents(), (3, 1));
}

#[test]
fn error_descriptions() {
    assert_eq!(SokobanError::ParseError(InvalidChar('x', Position::new(0, 0))).description(), "Level parsing error");
    assert_eq!(SokobanError::LevelTooLarge.description(), "Level too large");
    let io = std::io::Error::new(std::io::ErrorKind::NotFound, "missing");
    assert_eq!(SokobanError::from(io).description(), "I/O error");
    let e = load_slc("<C>".as_bytes()).err().unwrap();
    assert_eq!(e.description(), "Level collection format error");
    let e = SokobanError::from(InvalidChar('?', Position::new(2, 3)));
    assert!(matches!(e, SokobanError::ParseError(InvalidChar('?', _))));
}
