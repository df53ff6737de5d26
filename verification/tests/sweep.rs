use toy_engine::amount::Amount;

const LIMIT: i128 = 1 << 96;

struct Source(u64);

impl Source {
    fn next(&mut self) -> u64 {
        self.0 = self
            .0
            .wrapping_mul(6364136223846793005)
            .wrapping_add(1442695040888963407);
        self.0 >> 11
    }

    fn below(&mut self, bound: u64) -> u64 {
        self.next() % bound
    }

    fn parts(&mut self) -> (i128, u32) {
        let bits = self.below(97) as u32;
        let raw = ((self.next() as u128) << 64 | (self.next() as u128) << 11 | self.next() as u128)
            & ((1u128 << 96) - 1);
        let magnitude = if bits == 0 { 0 } else { (raw >> (96 - bits)) as i128 };
        let mantissa = if self.below(2) == 0 { magnitude } else { -magnitude };
        let scale = match self.below(4) {
            0 => 0,
            1 => 28,
            _ => self.below(29) as u32,
        };
        (mantissa, scale)
    }
}

fn amount(parts: (i128, u32)) -> Amount {
    Amount::new(parts.0, parts.1).unwrap()
}

fn got(result: Option<Amount>) -> Option<(i128, u32)> {
    result.map(|amount| (amount.mantissa(), amount.scale()))
}

fn at_scale(parts: (i128, u32), scale: u32) -> Option<i128> {
    parts.0.checked_mul(10_i128.pow(scale - parts.1))
}

fn expected_sum(a: (i128, u32), b: (i128, u32)) -> Option<(i128, u32)> {
    if a.0 == 0 {
        return Some(b);
    }
    if b.0 == 0 {
        return Some(a);
    }
    let scale = a.1.max(b.1);
    let mantissa = at_scale(a, scale)?.checked_add(at_scale(b, scale)?)?;
    if -LIMIT < mantissa && mantissa < LIMIT {
        Some((mantissa, scale))
    } else {
        None
    }
}

fn expected_ge(a: (i128, u32), b: (i128, u32)) -> bool {
    let scale = a.1.max(b.1);
    match (at_scale(a, scale), at_scale(b, scale)) {
        (Some(x), Some(y)) => x >= y,
        (None, _) => a.0 > 0,
        (_, None) => b.0 < 0,
    }
}

#[test]
fn sums_and_differences_are_the_exact_ones() {
    let mut source = Source(0x5eed);
    let mut exact = 0;
    let mut declined = 0;
    for _ in 0..40_000 {
        let a = source.parts();
        let b = source.parts();
        let sum = expected_sum(a, b);
        assert_eq!(sum, got(amount(a).checked_add(amount(b))), "{:?} + {:?}", a, b);
        let difference = expected_sum(a, (-b.0, b.1));
        assert_eq!(difference, got(amount(a).checked_sub(amount(b))), "{:?} - {:?}", a, b);
        if sum.is_some() {
            exact += 1;
        } else {
            declined += 1;
        }
    }
    assert!(exact > 1_000);
    assert!(declined > 1_000);
}

#[test]
fn sums_of_near_amounts_are_the_exact_ones() {
    let mut source = Source(0xfeed);
    for _ in 0..20_000 {
        let a = source.parts();
        let shift = source.below(7) as i128 - 3;
        let scale = if source.below(2) == 0 { a.1 } else { source.below(29) as u32 };
        let mantissa = (-a.0 + shift).clamp(-(LIMIT - 1), LIMIT - 1);
        let b = (mantissa, scale);
        assert_eq!(expected_sum(a, b), got(amount(a).checked_add(amount(b))), "{:?} + {:?}", a, b);
        assert_eq!(
            expected_sum(a, (-b.0, b.1)),
            got(amount(a).checked_sub(amount(b))),
            "{:?} - {:?}",
            a,
            b
        );
    }
}

#[test]
fn comparisons_are_those_of_the_numbers() {
    let mut source = Source(0xc0ffee);
    for _ in 0..40_000 {
        let a = source.parts();
        let b = if source.below(4) == 0 {
            let scale = source.below(29) as u32;
            match at_scale(a, a.1.max(scale)) {
                Some(m) if scale >= a.1 && -LIMIT < m && m < LIMIT => (m, scale),
                _ => source.parts(),
            }
        } else {
            source.parts()
        };
        assert_eq!(expected_ge(a, b), amount(a).ge(amount(b)), "{:?} >= {:?}", a, b);
        assert_eq!(expected_ge(b, a), amount(b).ge(amount(a)), "{:?} >= {:?}", b, a);
    }
}

#[test]
fn negations_change_the_sign_only() {
    let mut source = Source(0xbead);
    for _ in 0..10_000 {
        let a = source.parts();
        let negated = amount(a).neg();
        assert_eq!((-a.0, a.1), (negated.mantissa(), negated.scale()));
    }
}
