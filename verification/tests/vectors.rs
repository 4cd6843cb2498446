use everest::{Error, EvNum, EvVec};

fn vec2(a: i32, b: i32) -> EvVec {
    EvVec::new(EvNum::new(a), EvNum::new(b))
}

fn parts(v: EvVec) -> (i32, i32) {
    (v.0.inner(), v.1.inner())
}

#[test]
fn vector_holds_its_components() {
    let v = EvVec::new(EvNum::new(3), EvNum::new(15));
    assert_eq!(v.0, EvNum::new(3));
    assert_eq!(v.1, EvNum::new(4));
    assert_eq!(v, vec2(3, 4));
}

#[test]
fn vector_sum_is_by_component() {
    assert_eq!(vec2(1, 2) + vec2(3, 4), vec2(4, 6));
    assert_eq!(vec2(9, 10) + vec2(4, 5), vec2(2, 4));
}

#[test]
fn vector_difference_is_by_component() {
    assert_eq!(vec2(1, 2) - vec2(3, 4), vec2(9, 9));
    assert_eq!(vec2(5, 5) - vec2(5, 5), vec2(0, 0));
}

#[test]
fn vector_product_follows_the_complex_numbers() {
    assert_eq!(vec2(1, 2) * vec2(3, 4), vec2(6, 10));
    assert_eq!(vec2(0, 1) * vec2(0, 1), vec2(10, 0));
    assert_eq!(vec2(1, 0) * vec2(7, 8), vec2(7, 8));
    for a in 0..11 {
        for b in 0..11 {
            for c in 0..11 {
                for d in 0..11 {
                    let p = vec2(a, b) * vec2(c, d);
                    let want = ((a * c - b * d).rem_euclid(11), (a * d + b * c) % 11);
                    assert_eq!(parts(p), want);
                }
            }
        }
    }
}

#[test]
fn vector_negation_is_zero_minus_the_vector() {
    assert_eq!(-vec2(1, 2), vec2(10, 9));
    assert_eq!(-vec2(0, 0), vec2(0, 0));
    for a in 0..11 {
        for b in 0..11 {
            assert_eq!(-vec2(a, b), vec2(0, 0) - vec2(a, b));
        }
    }
}

#[test]
fn vector_division_by_zero_has_no_solution() {
    for a in 0..11 {
        for b in 0..11 {
            let r = vec2(a, b) / vec2(0, 0);
            assert_eq!(r, Err(Error::VecDivNoSolution(vec2(a, b), vec2(0, 0))));
        }
    }
}

#[test]
fn vector_division_undoes_multiplication() {
    for a in 0..11 {
        for b in 0..11 {
            for c in 0..11 {
                for d in 0..11 {
                    if (c, d) == (0, 0) {
                        continue;
                    }
                    let x = (vec2(a, b) / vec2(c, d)).unwrap();
                    assert_eq!(x * vec2(c, d), vec2(a, b), "({a},{b}) / ({c},{d})");
                }
            }
        }
    }
}

#[test]
fn vector_division_by_an_imaginary_vector() {
    // (x, y) = (b / d, -a / d)
    assert_eq!(vec2(3, 4) / vec2(0, 2), Ok(vec2(2, 4)));
    assert_eq!(vec2(0, 0) / vec2(0, 5), Ok(vec2(0, 0)));
}

#[test]
fn vector_division_by_a_real_vector() {
    // (x, y) = (a / c, b / c)
    assert_eq!(vec2(6, 4) / vec2(2, 0), Ok(vec2(3, 2)));
    assert_eq!(vec2(1, 0) / vec2(2, 0), Ok(vec2(6, 0)));
}

#[test]
fn vector_division_in_general() {
    // x = (a*c + b*d) / (c*c + d*d) = 0 / 3, y = (b - d*x) / c = 10 / 3
    assert_eq!(vec2(6, 10) / vec2(3, 4), Ok(vec2(1, 2)));
    assert_eq!(vec2(1, 0) / vec2(1, 1), Ok(vec2(6, 5)));
}

#[test]
fn vector_from_a_string() {
    assert_eq!(EvVec::from_str("1|2"), Ok(vec2(1, 2)));
    assert_eq!(EvVec::from_str("X|0"), Ok(vec2(10, 0)));
}

#[test]
fn vector_from_a_string_without_a_separator() {
    assert_eq!(EvVec::from_str("12"), Err(Error::VecStringNoPipe("12".to_string())));
    assert_eq!(EvVec::from_str(""), Err(Error::VecStringNoPipe(String::new())));
}

#[test]
fn vector_from_a_string_with_a_bad_first_part() {
    assert_eq!(EvVec::from_str("|2"), Err(Error::NumStringEmpty));
    assert_eq!(EvVec::from_str("12|3"), Err(Error::NumStringTooLong("12".to_string())));
    assert_eq!(EvVec::from_str("a|3"), Err(Error::UnknownDigit('a')));
    assert_eq!(EvVec::from_str("a|"), Err(Error::UnknownDigit('a')));
}

#[test]
fn vector_from_a_string_with_a_bad_second_part() {
    assert_eq!(EvVec::from_str("1|"), Err(Error::NumStringEmpty));
    assert_eq!(EvVec::from_str("1|23"), Err(Error::NumStringTooLong("23".to_string())));
    assert_eq!(EvVec::from_str("1|b"), Err(Error::UnknownDigit('b')));
}

#[test]
fn vector_from_a_string_is_split_at_the_first_separator() {
    assert_eq!(EvVec::from_str("1|2|3"), Err(Error::NumStringTooLong("2|3".to_string())));
    assert_eq!(EvVec::from_str("||"), Err(Error::NumStringEmpty));
    assert_eq!(EvVec::from_str("\u{e9}|1"), Err(Error::UnknownDigit('\u{e9}')));
    assert_eq!(EvVec::from_str("1|\u{e9}"), Err(Error::UnknownDigit('\u{e9}')));
}

#[test]
fn vector_text() {
    assert_eq!(vec2(4, 6).to_string(), "4|6");
    assert_eq!(vec2(2, 10).to_string(), "2|X");
    assert_eq!(vec2(10, 10).to_string(), "X|X");
}

#[test]
fn vector_text_reads_back() {
    for a in 0..11 {
        for b in 0..11 {
            let v = vec2(a, b);
            assert_eq!(EvVec::from_str(&v.to_string()), Ok(v));
        }
    }
}
