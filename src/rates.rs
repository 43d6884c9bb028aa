use vstd::prelude::*;

verus! {

/// Fixed-point scale of a published rate: a rate of `RATE_SCALE` is one to one.
pub const RATE_SCALE: u64 = 1_000_000;

/// The currencies that the engine quotes.
#[derive(PartialEq, Eq, Structural, Clone, Copy, Debug)]
pub enum Currency {
    Kes,
    Ugx,
    Tzs,
    Usd,
    Xlm,
}

/// The three-letter code of each currency, as its characters.
pub open spec fn code_of(c: Currency) -> Seq<char> {
    match c {
        Currency::Kes => seq!['K', 'E', 'S'],
        Currency::Ugx => seq!['U', 'G', 'X'],
        Currency::Tzs => seq!['T', 'Z', 'S'],
        Currency::Usd => seq!['U', 'S', 'D'],
        Currency::Xlm => seq!['X', 'L', 'M'],
    }
}

fn is_code(s: &str, a: char, b: char, c: char) -> (r: bool)
    ensures
        r == (s@ == seq![a, b, c]),
{
    if s.unicode_len() != 3 {
        assert(s@.len() != 3);
        return false;
    }
    let r = s.get_char(0) == a && s.get_char(1) == b && s.get_char(2) == c;
    if r {
        assert(s@ =~= seq![a, b, c]);
    }
    r
}

impl Currency {
    /// The currency whose code is `code`, if the engine quotes it.
    pub fn from_code(code: &str) -> (r: Option<Currency>)
        ensures
            r matches Some(c) ==> code_of(c) == code@,
            r is None ==> forall|c: Currency| code_of(c) != code@,
    {
        if is_code(code, 'K', 'E', 'S') {
            Some(Currency::Kes)
        } else if is_code(code, 'U', 'G', 'X') {
            Some(Currency::Ugx)
        } else if is_code(code, 'T', 'Z', 'S') {
            Some(Currency::Tzs)
        } else if is_code(code, 'U', 'S', 'D') {
            Some(Currency::Usd)
        } else if is_code(code, 'X', 'L', 'M') {
            Some(Currency::Xlm)
        } else {
            assert forall|c: Currency| code_of(c) != code@ by {
                match c {
                    Currency::Kes => {},
                    Currency::Ugx => {},
                    Currency::Tzs => {},
                    Currency::Usd => {},
                    Currency::Xlm => {},
                }
            }
            None
        }
    }
}

/// One published rate: one unit of `from` is worth `rate / RATE_SCALE` units of `to`.
#[derive(PartialEq, Eq, Structural, Clone, Copy, Debug)]
pub struct RateEntry {
    pub from: Currency,
    pub to: Currency,
    pub rate: u64,
}

/// An exact conversion factor: `amount` units come to `amount * num / den`.
#[derive(PartialEq, Eq, Structural, Clone, Copy, Debug)]
pub struct Rate {
    pub num: u64,
    pub den: u64,
}

#[derive(PartialEq, Eq, Structural, Clone, Copy, Debug)]
pub enum RateError {
    UnsupportedCurrencyPair,
}

/// A snapshot of published rates. A later entry for a pair replaces an earlier one.
pub struct RateTable {
    entries: Vec<RateEntry>,
}

/// The rate for `(from, to)` that the newest matching entry of `s` publishes.
pub open spec fn latest_rate(s: Seq<RateEntry>, from: Currency, to: Currency) -> Option<u64>
    decreases s.len(),
{
    if s.len() == 0 {
        None
    } else if s.last().from == from && s.last().to == to {
        Some(s.last().rate)
    } else {
        latest_rate(s.drop_last(), from, to)
    }
}

/// The rate the converter answers: one to one within a currency; else the newest rate
/// published for the pair; else the exact inverse of the newest rate published for the
/// opposite pair.
pub open spec fn quoted_rate(s: Seq<RateEntry>, from: Currency, to: Currency) -> Option<Rate> {
    if from == to {
        Some(Rate { num: 1, den: 1 })
    } else {
        match latest_rate(s, from, to) {
            Some(q) => Some(Rate { num: q, den: RATE_SCALE }),
            None => match latest_rate(s, to, from) {
                Some(q) => Some(Rate { num: RATE_SCALE, den: q }),
                None => None,
            },
        }
    }
}

/// What `amount` units come to at `rate`, rounded down.
pub open spec fn converted(amount: nat, rate: Rate) -> nat {
    (amount * (rate.num as nat)) / (rate.den as nat)
}

impl View for RateTable {
    type V = Seq<RateEntry>;

    closed spec fn view(&self) -> Seq<RateEntry> {
        self.entries@
    }
}

impl RateTable {
    /// Every published rate is positive.
    pub closed spec fn wf(&self) -> bool {
        forall|i: int| 0 <= i < self.entries@.len() ==> #[trigger] self.entries@[i].rate > 0
    }

    /// A table with no published rates.
    pub fn new() -> (t: RateTable)
        ensures
            t.wf(),
            t@ == Seq::<RateEntry>::empty(),
    {
        RateTable { entries: Vec::new() }
    }

    /// The rates the service starts with: airtime currencies into dollars and into the
    /// settlement asset, dollars into the settlement asset, and the settlement asset into
    /// shillings (whose inverse converts shillings back).
    pub fn standard() -> (t: RateTable)
        ensures
            t.wf(),
            t@ == seq![
                RateEntry { from: Currency::Kes, to: Currency::Usd, rate: 6_700 },
                RateEntry { from: Currency::Ugx, to: Currency::Usd, rate: 270 },
                RateEntry { from: Currency::Tzs, to: Currency::Usd, rate: 400 },
                RateEntry { from: Currency::Usd, to: Currency::Xlm, rate: 8_330_000 },
                RateEntry { from: Currency::Xlm, to: Currency::Kes, rate: 120_000_000 },
                RateEntry { from: Currency::Ugx, to: Currency::Xlm, rate: 2_249 },
                RateEntry { from: Currency::Tzs, to: Currency::Xlm, rate: 3_332 },
            ],
    {
        let mut t = RateTable::new();
        t.publish(Currency::Kes, Currency::Usd, 6_700);
        t.publish(Currency::Ugx, Currency::Usd, 270);
        t.publish(Currency::Tzs, Currency::Usd, 400);
        t.publish(Currency::Usd, Currency::Xlm, 8_330_000);
        t.publish(Currency::Xlm, Currency::Kes, 120_000_000);
        t.publish(Currency::Ugx, Currency::Xlm, 2_249);
        t.publish(Currency::Tzs, Currency::Xlm, 3_332);
        assert(t@ =~= seq![
            RateEntry { from: Currency::Kes, to: Currency::Usd, rate: 6_700 },
            RateEntry { from: Currency::Ugx, to: Currency::Usd, rate: 270 },
            RateEntry { from: Currency::Tzs, to: Currency::Usd, rate: 400 },
            RateEntry { from: Currency::Usd, to: Currency::Xlm, rate: 8_330_000 },
            RateEntry { from: Currency::Xlm, to: Currency::Kes, rate: 120_000_000 },
            RateEntry { from: Currency::Ugx, to: Currency::Xlm, rate: 2_249 },
            RateEntry { from: Currency::Tzs, to: Currency::Xlm, rate: 3_332 },
        ]);
        t
    }

    /// Publishes `rate` for `(from, to)`, replacing what was published for that pair.
    pub fn publish(&mut self, from: Currency, to: Currency, rate: u64)
        requires
            old(self).wf(),
            rate > 0,
        ensures
            final(self).wf(),
            final(self)@ == old(self)@.push(RateEntry { from, to, rate }),
    {
        self.entries.push(RateEntry { from, to, rate });
    }

    /// The rate from `from` to `to`.
    pub fn rate(&self, from: Currency, to: Currency) -> (r: Result<Rate, RateError>)
        requires
            self.wf(),
        ensures
            quoted_rate(self@, from, to) matches Some(q) ==> r == Ok::<Rate, RateError>(q),
            quoted_rate(self@, from, to) is None ==> r == Err::<Rate, RateError>(
                RateError::UnsupportedCurrencyPair,
            ),
            r matches Ok(q) ==> q.num > 0 && q.den > 0,
    {
        if from == to {
            return Ok(Rate { num: 1, den: 1 });
        }
        match self.latest(from, to) {
            Some(q) => Ok(Rate { num: q, den: RATE_SCALE }),
            None => match self.latest(to, from) {
                Some(q) => Ok(Rate { num: RATE_SCALE, den: q }),
                None => Err(RateError::UnsupportedCurrencyPair),
            },
        }
    }

    fn latest(&self, from: Currency, to: Currency) -> (r: Option<u64>)
        requires
            self.wf(),
            from != to,
        ensures
            r == latest_rate(self@, from, to),
            r matches Some(q) ==> q > 0,
    {
        let mut i: usize = self.entries.len();
        assert(self.entries@.subrange(0, i as int) =~= self.entries@);
        while i > 0
            invariant
                i <= self.entries@.len(),
                self.wf(),
                from != to,
                latest_rate(self.entries@, from, to) == latest_rate(
                    self.entries@.subrange(0, i as int),
                    from,
                    to,
                ),
            decreases i,
        {
            let e = self.entries[i - 1];
            assert(self.entries@.subrange(0, i as int).drop_last() =~= self.entries@.subrange(
                0,
                i - 1,
            ));
            if e.from == from && e.to == to {
                assert(self.entries@.subrange(0, i as int).last() == e);
                assert(latest_rate(self.entries@.subrange(0, i as int), from, to) == Some(e.rate));
                return Some(e.rate);
            }
            i = i - 1;
        }
        None
    }
}

/// Converts `amount` at `rate`, rounding down; `None` where the result does not fit in a
/// `u64`.
pub fn convert(amount: u64, rate: Rate) -> (r: Option<u64>)
    requires
        rate.den > 0,
    ensures
        converted(amount as nat, rate) <= u64::MAX ==> r == Some(
            converted(amount as nat, rate) as u64,
        ),
        converted(amount as nat, rate) > u64::MAX ==> r is None,
{
    assert(amount as u128 * rate.num as u128 <= u64::MAX as u128 * u64::MAX as u128)
        by (nonlinear_arith);
    let p: u128 = amount as u128 * rate.num as u128;
    let q: u128 = p / (rate.den as u128);
    if q > u64::MAX as u128 {
        None
    } else {
        Some(q as u64)
    }
}

} // verus!
