use aoc2019::day13::{input_generator, part_one, part_two, GameInfo};

#[test]
fn day13_frames() {
    let info = GameInfo::from_frame(vec![]);
    assert_eq!(info, GameInfo { score: 0, ball: (0, 0), paddle: (0, 0), game_finished: true });
    let info = GameInfo::from_frame(vec![1, 2, 3, 6, 5, 4, 7, 7, 2, 0, 0, 1, -1, 0, 12345, 9, 9]);
    assert_eq!(
        info,
        GameInfo { score: 12345, ball: (6, 5), paddle: (1, 2), game_finished: false }
    );
    let info = GameInfo::from_frame(vec![1, 2, 3, 6, 5, 3, 0, 0, 0]);
    assert_eq!(info, GameInfo { score: 0, ball: (0, 0), paddle: (6, 5), game_finished: true });
}

#[test]
fn day13_counts_blocks() {
    // draws two blocks and a wall
    let code = input_generator("104,1,104,2,104,2,104,3,104,4,104,1,104,5,104,6,104,2,104,2,99")
        .unwrap();
    assert_eq!(part_one(&code), Some(2));
    assert_eq!(part_one(&[99]), Some(0));
    assert_eq!(part_one(&[4, 5000, 99]), None);
}

#[test]
fn day13_plays() {
    // The first cell of each program is overwritten with 2 and then multiplies the first
    // cell with itself into cell 50.
    // Shows the score 77 and no block.
    let code = input_generator("0,0,0,50,104,-1,104,0,104,77,99").unwrap();
    assert_eq!(part_two(&code), Some(77));
    // Draws a block, the paddle at 1 and the ball at 5, and asks for the joystick; then
    // shows the joystick position plus 10 as the score.
    let code = input_generator(
        "0,0,0,50,104,0,104,0,104,2,104,1,104,0,104,3,104,5,104,0,104,4,3,100,101,10,100,100,104,-1,104,0,4,100,99",
    )
    .unwrap();
    assert_eq!(part_two(&code), Some(11));
    let code = input_generator(
        "0,0,0,50,104,0,104,0,104,2,104,5,104,0,104,3,104,1,104,0,104,4,3,100,101,10,100,100,104,-1,104,0,4,100,99",
    )
    .unwrap();
    assert_eq!(part_two(&code), Some(9));
    assert_eq!(part_two(&[4, 5000, 99]), None);
}
