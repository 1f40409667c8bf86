use shooting_server::ship::Ship;
use shooting_server::text::Text;
use shooting_server::vector::Vector;

#[test]
fn lobby_labels() {
    let t = Text::player_num(0);
    assert_eq!(t.text, "You are Player 1");
    assert_eq!(t.color, "#00ff00");
    assert_eq!(t.pos, Vector::new(300_000, 100_000));

    let t = Text::you(2);
    assert_eq!(t.text, "YOU");
    assert_eq!(t.color, "#0080ff");
    assert_eq!(t.pos, Vector::new(350_000, 250_000));

    let t = Text::space_to_ready(3);
    assert_eq!(t.text, "Space to Ready");
    assert_eq!(t.color, "#ffff00");
}

#[test]
fn ranking_labels() {
    let t = Text::ranking(0, 1);
    assert_eq!(t.text, "1st Player2");
    assert_eq!(t.color, "#ff0000");
    assert_eq!(t.pos, Vector::new(300_000, 200_000));

    let t = Text::ranking(3, 0);
    assert_eq!(t.text, "4th Player1");
    assert_eq!(t.pos, Vector::new(300_000, 350_000));
}

#[test]
fn ready_label_sits_above_the_ship() {
    let ship = Ship::new(1, "#ff0000".to_string(), Vector::new(100_000, 600_000), 0, 0);
    let t = ship.ready_text();
    assert_eq!(t.text, "READY");
    assert_eq!(t.color, "#ff0000");
    // the label's offset wraps with the torus
    assert_eq!(t.pos, Vector::new(100_000, 10_000));
}
