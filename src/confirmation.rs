//! Mobile confirmations and the filters over a list of them.
use vstd::prelude::*;

verus! {

/// The confirmations of an account, in the order in which they were listed.
pub struct Confirmations(pub Vec<Confirmation>);

/// One confirmation as listed on the confirmations page.
#[derive(Debug, Clone, PartialEq)]
pub struct Confirmation {
    pub id: String,
    pub key: String,
    pub kind: EConfirmationType,
    pub details: Option<ConfirmationDetails>,
}

/// Details of a confirmation.
#[derive(Debug, Clone, Copy, PartialEq, Eq, Structural)]
pub struct ConfirmationDetails {
    /// ID of the trade offer; present for trade confirmations.
    pub trade_offer_id: Option<i64>,
}

/// Kinds of confirmations that exist, numbered 0, 1, 2, 3, 5 and 6 on the
/// wire.
#[derive(Debug, Clone, Copy, PartialEq, Eq, Structural)]
pub enum EConfirmationType {
    /// Unknown confirmation
    Unknown,
    /// Under rare circumstances this might pop up
    Generic,
    /// Confirmation from Trade Offer
    Trade,
    /// Confirmation from Steam's Market
    Market,
    /// Confirmation for a phone number change
    PhoneNumberChange,
    /// Confirmation for account recovery
    AccountRecovery,
}

/// Either accept the confirmation, or cancel it.
#[derive(Debug, Clone, Copy)]
pub enum ConfirmationMethod {
    /// Accept a trade
    Accept,
    /// Deny a trade
    Deny,
}

/// The kind that a wire number stands for.
pub open spec fn kind_of_number(n: u32) -> Option<EConfirmationType> {
    if n == 0 {
        Some(EConfirmationType::Unknown)
    } else if n == 1 {
        Some(EConfirmationType::Generic)
    } else if n == 2 {
        Some(EConfirmationType::Trade)
    } else if n == 3 {
        Some(EConfirmationType::Market)
    } else if n == 5 {
        Some(EConfirmationType::PhoneNumberChange)
    } else if n == 6 {
        Some(EConfirmationType::AccountRecovery)
    } else {
        None
    }
}

pub open spec fn is_decimal_digit(c: char) -> bool {
    '0' <= c <= '9'
}

/// The value of a string of decimal digits.
pub open spec fn decimal_value(d: Seq<char>) -> int
    decreases d.len(),
{
    if d.len() == 0 {
        0
    } else {
        decimal_value(d.drop_last()) * 10 + (d.last() as int - '0' as int)
    }
}

/// The digits of an unsigned decimal number: the text after an optional `+`.
pub open spec fn unsigned_digits(s: Seq<char>) -> Seq<char> {
    if s.len() > 0 && s[0] == '+' {
        s.drop_first()
    } else {
        s
    }
}

/// The `u32` that a text writes in decimal, as `str::parse::<u32>` reads it:
/// an optional `+`, then at least one digit, and a value that fits.
pub open spec fn u32_text(s: Seq<char>) -> Option<u32> {
    let d = unsigned_digits(s);
    if d.len() > 0 && (forall|i: int| 0 <= i < d.len() ==> is_decimal_digit(#[trigger] d[i]))
        && decimal_value(d) <= u32::MAX {
        Some(decimal_value(d) as u32)
    } else {
        None
    }
}

/// The confirmations of `s` of kind `t`, in order.
pub open spec fn of_kind(s: Seq<Confirmation>, t: EConfirmationType) -> Seq<Confirmation>
    decreases s.len(),
{
    if s.len() == 0 {
        seq![]
    } else if s.last().kind == t {
        of_kind(s.drop_last(), t).push(s.last())
    } else {
        of_kind(s.drop_last(), t)
    }
}

/// The confirmations of `s` that carry one of the trade offer ids of `ids`,
/// in order.
pub open spec fn with_offer_in(s: Seq<Confirmation>, ids: Seq<i64>) -> Seq<Confirmation>
    decreases s.len(),
{
    if s.len() == 0 {
        seq![]
    } else if carries_offer_in(s.last(), ids) {
        with_offer_in(s.drop_last(), ids).push(s.last())
    } else {
        with_offer_in(s.drop_last(), ids)
    }
}

/// A confirmation carries the trade offer id `id`.
pub open spec fn carries_offer(c: Confirmation, id: i64) -> bool {
    match c.details {
        Some(d) => d.trade_offer_id == Some(id),
        None => false,
    }
}

/// A confirmation carries one of the trade offer ids of `ids`.
pub open spec fn carries_offer_in(c: Confirmation, ids: Seq<i64>) -> bool {
    match c.details {
        Some(d) => match d.trade_offer_id {
            Some(id) => ids.contains(id),
            None => false,
        },
        None => false,
    }
}

impl EConfirmationType {
    /// The kind that a wire number stands for, if any.
    pub fn from_number(n: u32) -> (r: Option<EConfirmationType>)
        ensures
            r == kind_of_number(n),
    {
        match n {
            0 => Some(EConfirmationType::Unknown),
            1 => Some(EConfirmationType::Generic),
            2 => Some(EConfirmationType::Trade),
            3 => Some(EConfirmationType::Market),
            5 => Some(EConfirmationType::PhoneNumberChange),
            6 => Some(EConfirmationType::AccountRecovery),
            _ => None,
        }
    }

    /// The kind that a decimal wire number stands for; `Err` when the text is
    /// not a `u32` or no kind has that number.
    pub fn parse(s: &str) -> (r: Result<EConfirmationType, ()>)
        ensures
            r == match u32_text(s@) {
                Some(n) => match kind_of_number(n) {
                    Some(k) => Ok(k),
                    None => Err(()),
                },
                None => Err(()),
            },
    {
        match parse_u32(s) {
            Some(n) => match EConfirmationType::from_number(n) {
                Some(k) => Ok(k),
                None => Err(()),
            },
            None => Err(()),
        }
    }
}

impl std::str::FromStr for EConfirmationType {
    type Err = ();

    fn from_str(s: &str) -> Result<Self, Self::Err> {
        EConfirmationType::parse(s)
    }
}

/// Reads a `u32` written in decimal, with an optional leading `+`.
pub fn parse_u32(s: &str) -> (r: Option<u32>)
    ensures
        r == u32_text(s@),
{
    let cs = crate::text::chars_of(s);
    let start: usize = if cs.len() > 0 && cs[0] == '+' {
        1
    } else {
        0
    };
    let ghost d = unsigned_digits(s@);
    assert(d =~= cs@.subrange(start as int, cs@.len() as int));
    if start == cs.len() {
        return None;
    }
    let mut value: u64 = 0;
    let mut i: usize = start;
    while i < cs.len()
        invariant
            start <= i <= cs@.len(),
            cs@ == s@,
            d == unsigned_digits(s@),
            d == cs@.subrange(start as int, cs@.len() as int),
            forall|k: int| 0 <= k < i - start ==> is_decimal_digit(#[trigger] d[k]),
            value == decimal_value(d.subrange(0, i - start)),
            value <= u32::MAX,
        decreases cs@.len() - i,
    {
        let c = cs[i];
        if !('0' <= c && c <= '9') {
            assert(!is_decimal_digit(d[i - start]));
            assert(u32_text(s@) is None);
            return None;
        }
        assert(d.subrange(0, i + 1 - start).drop_last() =~= d.subrange(0, i - start));
        assert(d.subrange(0, i + 1 - start).last() == c);
        value = value * 10 + (c as u64 - '0' as u64);
        if value > u32::MAX as u64 {
            proof {
                if forall|k: int| 0 <= k < d.len() ==> is_decimal_digit(#[trigger] d[k]) {
                    lemma_decimal_grows(d, i + 1 - start);
                }
            }
            assert(u32_text(s@) is None);
            return None;
        }
        i += 1;
    }
    assert(d.subrange(0, i - start) =~= d);
    Some(value as u32)
}

/// A longer prefix of digits is worth at least as much as a shorter one.
proof fn lemma_decimal_grows(d: Seq<char>, k: int)
    requires
        0 <= k <= d.len(),
        forall|i: int| 0 <= i < d.len() ==> is_decimal_digit(#[trigger] d[i]),
    ensures
        decimal_value(d.subrange(0, k)) <= decimal_value(d),
    decreases d.len() - k,
{
    if k < d.len() {
        lemma_decimal_grows(d, k + 1);
        assert(d.subrange(0, k + 1).drop_last() =~= d.subrange(0, k));
        lemma_decimal_nonneg(d.subrange(0, k));
    } else {
        assert(d.subrange(0, k) =~= d);
    }
}

proof fn lemma_decimal_nonneg(d: Seq<char>)
    ensures
        decimal_value(d) >= 0 || exists|i: int| 0 <= i < d.len() && !is_decimal_digit(d[i]),
    decreases d.len(),
{
    if d.len() > 0 {
        lemma_decimal_nonneg(d.drop_last());
        if exists|i: int| 0 <= i < d.drop_last().len() && !is_decimal_digit(d.drop_last()[i]) {
            let i = choose|i: int| 0 <= i < d.drop_last().len() && !is_decimal_digit(d.drop_last()[i]);
            assert(!is_decimal_digit(d[i]));
        }
    }
}

impl Confirmations {
    /// Keeps the confirmations of the given kind, in order.
    pub fn filter_by_confirmation_type(&mut self, confirmation_type: EConfirmationType)
        ensures
            final(self).0@ == of_kind(old(self).0@, confirmation_type),
    {
        let ghost original = self.0@;
        let mut rest: Vec<Confirmation> = Vec::new();
        std::mem::swap(&mut self.0, &mut rest);
        let ghost n = rest@.len();
        assert(of_kind(original.subrange(0, 0), confirmation_type) =~= self.0@);
        assert(rest@ =~= original.subrange(0, n as int));
        while rest.len() > 0
            invariant
                n == original.len(),
                rest@.len() <= n,
                rest@ == original.subrange(n - rest@.len(), n as int),
                self.0@ == of_kind(original.subrange(0, n - rest@.len()), confirmation_type),
            decreases rest@.len(),
        {
            let ghost k = n - rest@.len();
            let c = rest.remove(0);
            assert(original.subrange(0, k + 1).drop_last() =~= original.subrange(0, k));
            assert(rest@ =~= original.subrange(k + 1, n as int));
            assert(c == original[k]);
            assert(original.subrange(0, k + 1).last() == c);
            if c.kind == confirmation_type {
                self.0.push(c);
            }
        }
        assert(original.subrange(0, n as int) =~= original);
    }

    /// Keeps the confirmations whose trade offer id is one of
    /// `trade_offer_ids`, in order; a confirmation without details or
    /// without a trade offer id goes.
    pub fn filter_by_trade_offer_ids(&mut self, trade_offer_ids: &[i64])
        ensures
            final(self).0@ == with_offer_in(old(self).0@, trade_offer_ids@),
    {
        let ghost original = self.0@;
        let mut rest: Vec<Confirmation> = Vec::new();
        std::mem::swap(&mut self.0, &mut rest);
        let ghost n = rest@.len();
        assert(with_offer_in(original.subrange(0, 0), trade_offer_ids@) =~= self.0@);
        assert(rest@ =~= original.subrange(0, n as int));
        while rest.len() > 0
            invariant
                n == original.len(),
                rest@.len() <= n,
                rest@ == original.subrange(n - rest@.len(), n as int),
                self.0@ == with_offer_in(original.subrange(0, n - rest@.len()), trade_offer_ids@),
            decreases rest@.len(),
        {
            let ghost k = n - rest@.len();
            let c = rest.remove(0);
            assert(original.subrange(0, k + 1).drop_last() =~= original.subrange(0, k));
            assert(rest@ =~= original.subrange(k + 1, n as int));
            assert(c == original[k]);
            assert(original.subrange(0, k + 1).last() == c);
            let keep_it = match c.details {
                Some(d) => match d.trade_offer_id {
                    Some(id) => contains_id(trade_offer_ids, id),
                    None => false,
                },
                None => false,
            };
            assert(carries_offer_in(c, trade_offer_ids@) == keep_it);
            if keep_it {
                self.0.push(c);
            }
        }
        assert(original.subrange(0, n as int) =~= original);
    }

    /// Whether some confirmation carries the trade offer id `trade_offer_id`.
    pub fn has_trade_offer_id(&self, trade_offer_id: i64) -> (r: bool)
        ensures
            r == exists|i: int|
                0 <= i < self.0@.len() && carries_offer(#[trigger] self.0@[i], trade_offer_id),
    {
        let mut i: usize = 0;
        while i < self.0.len()
            invariant
                i <= self.0@.len(),
                forall|k: int| 0 <= k < i ==> !carries_offer(#[trigger] self.0@[k], trade_offer_id),
            decreases self.0@.len() - i,
        {
            let found = match self.0[i].details {
                Some(d) => match d.trade_offer_id {
                    Some(id) => id == trade_offer_id,
                    None => false,
                },
                None => false,
            };
            if found {
                assert(carries_offer(self.0@[i as int], trade_offer_id));
                return true;
            }
            i += 1;
        }
        false
    }
}

/// Whether `ids` holds `id`.
fn contains_id(ids: &[i64], id: i64) -> (r: bool)
    ensures
        r == ids@.contains(id),
{
    let mut i: usize = 0;
    while i < ids.len()
        invariant
            i <= ids@.len(),
            forall|k: int| 0 <= k < i ==> ids@[k] != id,
        decreases ids@.len() - i,
    {
        if ids[i] == id {
            assert(ids@[i as int] == id);
            return true;
        }
        i += 1;
    }
    false
}

impl Default for Confirmations {
    fn default() -> (r: Confirmations)
        ensures
            r.0@ == Seq::<Confirmation>::empty(),
    {
        Confirmations(Vec::new())
    }
}

impl From<Vec<Confirmation>> for Confirmations {
    fn from(confirmations_vec: Vec<Confirmation>) -> (r: Confirmations) {
        Confirmations(confirmations_vec)
    }
}

impl vstd::std_specs::convert::FromSpecImpl<Vec<Confirmation>> for Confirmations {
    open spec fn obeys_from_spec() -> bool {
        true
    }

    open spec fn from_spec(v: Vec<Confirmation>) -> Confirmations {
        Confirmations(v)
    }
}

impl ConfirmationMethod {
    /// The word that the confirmation endpoint expects for this method.
    pub fn value(&self) -> (r: &'static str)
        ensures
            r@ == match self {
                ConfirmationMethod::Accept => "allow"@,
                ConfirmationMethod::Deny => "cancel"@,
            },
    {
        match *self {
            ConfirmationMethod::Accept => "allow",
            ConfirmationMethod::Deny => "cancel",
        }
    }
}

} // verus!
