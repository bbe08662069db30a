//! Tests of the ground map's text round trip.

use flipull_solver::Ground;

fn parse_ground(s: &str) -> Ground {
    Ground::from_text(s).unwrap()
}

#[test]
fn test_ground_io() {
    let cases = [
        "........\n........\n........\n........\n........\n........\n........\n........\n........\n........\n........\n........\n",
        "#####...\n###.....\n###.....\n#.||....\n#.......\n|.......\n........\n........\n........\n........\n........\n........\n",
    ];

    for case in cases {
        let ground = parse_ground(case);
        assert_eq!(ground.to_text(), case);
    }
}
