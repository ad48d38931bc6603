use cubelib::algs::{Algorithm, Solution};
use cubelib::cube::{Face, Move, Turn};

#[test]
fn empty_solution_has_no_moves() {
    let s = Solution::new();
    assert_eq!(s.len(), 0);
    assert_eq!(s.steps.len(), 0);
}

#[test]
fn solution_length_is_the_sum_of_its_steps() {
    let mut s = Solution::new();
    let mut a = Algorithm::new();
    a.normal_moves.push(Move(Face::Up, Turn::Clockwise));
    a.inverse_moves.push(Move(Face::Right, Turn::Half));
    let mut b = Algorithm::new();
    b.normal_moves.push(Move(Face::Front, Turn::CounterClockwise));
    s.add_step("eo".to_string(), "eo-fb".to_string(), a);
    s.add_step("dr".to_string(), "dr-ud".to_string(), b);
    assert_eq!(s.len(), 3);
    assert_eq!(s.steps[0].name, "eo");
    assert_eq!(s.steps[0].variant, "eo-fb");
    assert_eq!(s.steps[1].name, "dr");
    assert_eq!(s.steps[1].variant, "dr-ud");
    let copy = s.clone();
    assert_eq!(copy.steps.len(), 2);
    assert_eq!(copy.steps[1].variant, "dr-ud");
    assert_eq!(copy.steps[0].alg.normal_moves, s.steps[0].alg.normal_moves);
    assert_eq!(copy.steps[0].alg.inverse_moves, s.steps[0].alg.inverse_moves);
    let m = s.merged();
    assert_eq!(m.normal_moves, vec![Move(Face::Up, Turn::Clockwise), Move(Face::Front, Turn::CounterClockwise)]);
    assert_eq!(m.inverse_moves, vec![Move(Face::Right, Turn::Half)]);
    assert_eq!(m.last_normal(), Some(Move(Face::Front, Turn::CounterClockwise)));
    assert_eq!(m.last_inverse(), Some(Move(Face::Right, Turn::Half)));
}
