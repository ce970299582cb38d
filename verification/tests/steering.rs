use physarum::field::{Config, Field};
use physarum::steering::{steer, Probes, Relation, Turn};

fn compare(ahead: f64, side: f64) -> Relation {
    if ahead < side {
        Relation::Less
    } else if ahead > side {
        Relation::Greater
    } else if ahead == side {
        Relation::Equal
    } else {
        Relation::Unordered
    }
}

fn field_with(cells: &[((usize, usize), f64)]) -> Field<f64> {
    let config = Config::new(8, 8, 0).unwrap();
    let mut field = Field::new(&config, 0.0);
    for &((x, y), v) in cells {
        field.set(x, y, v);
    }
    field
}

fn probes(forward: (i64, i64), left: (i64, i64), right: (i64, i64)) -> Probes {
    Probes { forward, left, right }
}

#[test]
fn richer_left_and_poorer_right_turns_right() {
    assert_eq!(steer(Relation::Less, Relation::Greater), Turn::Right);
}

#[test]
fn poorer_left_and_richer_right_turns_left() {
    assert_eq!(steer(Relation::Greater, Relation::Less), Turn::Left);
}

#[test]
fn every_other_case_goes_straight() {
    let all = [Relation::Less, Relation::Equal, Relation::Greater, Relation::Unordered];
    for to_left in all {
        for to_right in all {
            let turn = steer(to_left, to_right);
            let want = match (to_left, to_right) {
                (Relation::Less, Relation::Greater) => Turn::Right,
                (Relation::Greater, Relation::Less) => Turn::Left,
                _ => Turn::Straight,
            };
            assert_eq!(turn, want);
        }
    }
}

#[test]
fn ties_go_straight() {
    assert_eq!(steer(Relation::Equal, Relation::Equal), Turn::Straight);
    assert_eq!(steer(Relation::Equal, Relation::Greater), Turn::Straight);
    assert_eq!(steer(Relation::Less, Relation::Equal), Turn::Straight);
    assert_eq!(steer(Relation::Equal, Relation::Less), Turn::Straight);
    assert_eq!(steer(Relation::Greater, Relation::Equal), Turn::Straight);
}

#[test]
fn both_sides_richer_or_both_poorer_go_straight() {
    assert_eq!(steer(Relation::Less, Relation::Less), Turn::Straight);
    assert_eq!(steer(Relation::Greater, Relation::Greater), Turn::Straight);
}

#[test]
fn turn_steps_have_the_sign_of_the_heading_change() {
    assert_eq!(Turn::Left.steps(), 1);
    assert_eq!(Turn::Right.steps(), -1);
    assert_eq!(Turn::Straight.steps(), 0);
}

#[test]
fn sense_reads_ahead_left_and_right() {
    let field = field_with(&[((1, 1), 1.0), ((2, 2), 2.0), ((3, 3), 3.0)]);
    let s = field.sense(&probes((1, 1), (2, 2), (3, 3)));
    assert_eq!(s, Some((1.0, 2.0, 3.0)));
}

#[test]
fn sense_gives_nothing_when_any_probe_is_off_the_grid() {
    let field = field_with(&[]);
    assert_eq!(field.sense(&probes((8, 0), (1, 1), (2, 2))), None);
    assert_eq!(field.sense(&probes((0, 0), (1, -1), (2, 2))), None);
    assert_eq!(field.sense(&probes((0, 0), (1, 1), (2, 8))), None);
    assert_eq!(field.sense(&probes((-1, -1), (8, 8), (0, 9))), None);
    assert_eq!(field.sense(&probes((7, 7), (0, 0), (7, 0))), Some((0.0, 0.0, 0.0)));
}

#[test]
fn steering_on_a_blank_field_goes_straight() {
    let field = field_with(&[]);
    assert_eq!(field.steer(&probes((4, 4), (4, 3), (4, 5)), &compare), Turn::Straight);
}

#[test]
fn steering_follows_the_rule_on_the_samples() {
    // ahead 1, left 2, right 0: ahead < left and ahead > right.
    let field = field_with(&[((4, 4), 1.0), ((4, 3), 2.0), ((4, 5), 0.0)]);
    assert_eq!(field.steer(&probes((4, 4), (4, 3), (4, 5)), &compare), Turn::Right);
    // the sides swapped: ahead > left and ahead < right.
    assert_eq!(field.steer(&probes((4, 4), (4, 5), (4, 3)), &compare), Turn::Left);
    // ahead is the richest.
    let field = field_with(&[((4, 4), 3.0), ((4, 3), 2.0), ((4, 5), 0.0)]);
    assert_eq!(field.steer(&probes((4, 4), (4, 3), (4, 5)), &compare), Turn::Straight);
    // ahead is the poorest.
    let field = field_with(&[((4, 4), 0.0), ((4, 3), 2.0), ((4, 5), 1.0)]);
    assert_eq!(field.steer(&probes((4, 4), (4, 3), (4, 5)), &compare), Turn::Straight);
}

#[test]
fn steering_with_equal_samples_goes_straight() {
    let field = field_with(&[((4, 4), 0.7), ((4, 3), 0.7), ((4, 5), 0.7)]);
    assert_eq!(field.steer(&probes((4, 4), (4, 3), (4, 5)), &compare), Turn::Straight);
    let field = field_with(&[((4, 4), 0.7), ((4, 3), 0.7), ((4, 5), 0.1)]);
    assert_eq!(field.steer(&probes((4, 4), (4, 3), (4, 5)), &compare), Turn::Straight);
    let field = field_with(&[((4, 4), 0.7), ((4, 3), 0.9), ((4, 5), 0.7)]);
    assert_eq!(field.steer(&probes((4, 4), (4, 3), (4, 5)), &compare), Turn::Straight);
}

#[test]
fn steering_is_skipped_when_a_probe_is_off_the_grid() {
    // The samples that are on the grid would ask for a right turn.
    let field = field_with(&[((7, 4), 1.0), ((7, 3), 2.0)]);
    assert_eq!(field.steer(&probes((7, 4), (7, 3), (8, 5)), &compare), Turn::Straight);
    assert_eq!(field.steer(&probes((7, 4), (7, 3), (7, -1)), &compare), Turn::Straight);
}

#[test]
fn unordered_samples_go_straight() {
    let field = field_with(&[((4, 4), f64::NAN), ((4, 3), 2.0), ((4, 5), 0.0)]);
    assert_eq!(field.steer(&probes((4, 4), (4, 3), (4, 5)), &compare), Turn::Straight);
}

#[test]
fn steer_all_decides_for_each_agent_by_itself() {
    let field = field_with(&[((4, 4), 1.0), ((4, 3), 2.0), ((4, 5), 0.0)]);
    let all = vec![
        probes((4, 4), (4, 3), (4, 5)),
        probes((4, 4), (4, 5), (4, 3)),
        probes((0, 0), (1, 1), (2, 2)),
        probes((4, 4), (4, 3), (9, 9)),
    ];
    let turns = field.steer_all(&all, &compare);
    assert_eq!(turns, vec![Turn::Right, Turn::Left, Turn::Straight, Turn::Straight]);
    assert_eq!(field.steer_all(&Vec::new(), &compare), Vec::<Turn>::new());
}
