use either::{Either, Left, Right};

#[test]
fn basic() {
    let mut e = Left(2);
    let r = Right(2);
    assert_eq!(e, Left(2));
    e = r;
    assert_eq!(e, Right(2));
    assert_eq!(e.left(), None);
    assert_eq!(e.right(), Some(2));
    assert_eq!(e.as_ref().right(), Some(&2));
    assert_eq!(e.as_mut().right(), Some(&mut 2));
}

fn twice_left(wrapper: Either<u32, u32>) -> Either<u32, u32> {
    let value = match wrapper {
        Left(val) => val,
        Right(err) => return Right(From::from(err)),
    };
    Left(value * 2)
}

fn pass_right(wrapper: Either<&'static str, &'static str>) -> Either<String, &'static str> {
    Right(match wrapper {
        Left(err) => return Left(From::from(err)),
        Right(val) => val,
    })
}

#[test]
fn macros() {
    assert_eq!(twice_left(Right(1337u32)), Right(1337));
    assert_eq!(pass_right(Left("foo bar")), Left(String::from("foo bar")));
}

fn is_str(_: &str) {}

#[test]
fn deref() {
    let value: Either<String, String> = Left(String::from("test"));
    is_str(value.deref());
}

#[test]
fn deref_right_side() {
    let value: Either<String, String> = Right(String::from("other"));
    assert_eq!(value.deref(), "other");
}

#[test]
fn tags_are_exclusive() {
    let l: Either<u32, &str> = Left(123);
    assert!(l.is_left());
    assert!(!l.is_right());
    let r: Either<(), &str> = Right("the right value");
    assert!(!r.is_left());
    assert!(r.is_right());
}

#[test]
fn left_right_of_constructors() {
    let l: Either<&str, u32> = Left("some value");
    assert_eq!(l.left(), Some("some value"));
    let l: Either<&str, u32> = Left("some value");
    assert_eq!(l.right(), None);
    let r: Either<&str, u32> = Right(321);
    assert_eq!(r.left(), None);
    let r: Either<&str, u32> = Right(321);
    assert_eq!(r.right(), Some(321));
}

#[test]
fn flip_round_trip() {
    let l: Either<u32, &str> = Left(123);
    assert_eq!(l.flip(), Right(123));
    assert_eq!(l.flip().flip(), l);
    let r: Either<u32, &str> = Right("some value");
    assert_eq!(r.flip(), Left("some value"));
    assert_eq!(r.flip().flip(), r);
}

fn square(n: u32) -> i32 {
    (n * n) as i32
}

fn negate(n: i32) -> i32 {
    -n
}

#[test]
fn either_applies_one_function() {
    let l: Either<u32, i32> = Left(4);
    assert_eq!(l.either(square, negate), 16);
    let r: Either<u32, i32> = Right(-4);
    assert_eq!(r.either(square, negate), 4);
}

#[test]
fn map_left_and_map_right() {
    let l: Either<u32, u32> = Left(123);
    assert_eq!(l.map_left(|x| x * 2), Left(246));
    let r: Either<u32, u32> = Right(123);
    assert_eq!(r.map_left(|x| x * 2), Right(123));
    let l: Either<u32, u32> = Left(123);
    assert_eq!(l.map_right(|x| x * 2), Left(123));
    let r: Either<u32, u32> = Right(123);
    assert_eq!(r.map_right(|x| x * 2), Right(246));
}

#[test]
fn left_orders_before_right() {
    let big_left: Either<u32, u32> = Left(999999);
    let small_right: Either<u32, u32> = Right(0);
    assert!(big_left < small_right);
    assert!(small_right > big_left);
    let a: Either<u32, u32> = Left(1);
    let b: Either<u32, u32> = Left(2);
    assert!(a < b);
    let c: Either<u32, u32> = Right(5);
    let d: Either<u32, u32> = Right(6);
    assert!(c < d);
}

#[test]
fn result_conversions() {
    let ok: Result<u32, &str> = Ok(5);
    assert_eq!(Either::from(ok), Right(5));
    let err: Result<u32, &str> = Err("bad");
    assert_eq!(Either::from(err), Left("bad"));
    let l: Either<&str, u32> = Left("bad");
    assert_eq!(l.into_result(), Err("bad"));
    let r: Either<&str, u32> = Right(7);
    assert_eq!(r.into_result(), Ok(7));
}
