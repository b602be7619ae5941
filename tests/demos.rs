use sketches::destruct::{is_reducible, reduce_sum, Token};
use sketches::dyn_mut_closures::Environment;

#[test]
fn environment_actions() {
    let mut env = Environment::new([1, 2, 3, 4, 5]);
    assert_eq!(env.nums, vec![1, 2, 3, 4, 5]);
    env.add_one_to_each();
    env.push_zero();
    assert_eq!(env.nums, vec![2, 3, 4, 5, 6, 0]);
}

#[test]
fn sum_of_tokens() {
    let v = vec![Token::Number(3), Token::Add, Token::Number(4), Token::Add, Token::Number(1)];
    assert_eq!(reduce_sum(v), vec![Token::Number(8)]);
    assert_eq!(reduce_sum(vec![Token::Number(-5)]), vec![Token::Number(-5)]);
    assert_eq!(
        reduce_sum(vec![Token::Number(i32::MAX), Token::Add, Token::Number(-1)]),
        vec![Token::Number(i32::MAX - 1)]
    );
}

#[test]
fn reducible_token_sums() {
    let v = vec![Token::Number(3), Token::Add, Token::Number(4), Token::Add, Token::Number(1)];
    assert!(is_reducible(&v));
    assert!(is_reducible(&vec![Token::Number(7)]));
    assert!(!is_reducible(&vec![]));
    assert!(!is_reducible(&vec![Token::Number(1), Token::Add]));
    assert!(!is_reducible(&vec![Token::Add, Token::Number(1), Token::Add]));
    assert!(!is_reducible(&vec![Token::Number(1), Token::Number(2), Token::Number(3)]));
    assert!(!is_reducible(&vec![Token::Number(i32::MAX), Token::Add, Token::Number(1)]));
    assert!(is_reducible(&vec![
        Token::Number(i32::MAX),
        Token::Add,
        Token::Number(1),
        Token::Add,
        Token::Number(-2),
    ]) == false);
    assert!(is_reducible(&vec![
        Token::Number(i32::MIN),
        Token::Add,
        Token::Number(i32::MAX),
    ]));
}
