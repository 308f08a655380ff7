use vstd::prelude::*;

use std::collections::VecDeque;

use crate::model::{first_index_where, lemma_first_index_is};
use crate::scenario::RpgRandomSourceBinding;
use crate::text::{decimal, join, push_decimal, text};

verus! {

/// What a bounded random request is for.
#[derive(Debug, Clone, Copy, PartialEq, Eq, Structural)]
pub enum RpgRandomRequestKind {
    AttackCheck,
    FormulaDice,
    EffectSave,
}

/// `count` dice of `sides` faces inside a heterogeneous request.
#[derive(Debug, Clone, Copy, PartialEq, Eq, Structural)]
pub struct RpgRandomTerm {
    pub count: u32,
    pub sides: u32,
}

/// A request for `count` bounded values in `1..=sides`, or, when
/// `heterogeneous_terms` is non-empty, for the values of those terms in order.
#[derive(Debug, Clone)]
pub struct RpgRandomRequest {
    pub kind: RpgRandomRequestKind,
    pub count: u32,
    pub sides: u32,
    pub path: String,
    pub heterogeneous_terms: Vec<RpgRandomTerm>,
}

/// Why a random source refused a request.
#[derive(Debug, Clone)]
pub struct RpgRandomSourceFailure {
    pub code: String,
    pub path: String,
    pub message: String,
    pub expected_request: Option<Box<RpgRandomRequest>>,
    pub actual_request: Option<Box<RpgRandomRequest>>,
}

/// One recorded request and the values that answered it.
#[derive(Debug, Clone)]
pub struct RpgRollTapeEntry {
    pub request: RpgRandomRequest,
    pub values: Vec<u32>,
}

/// Two requests are the same request.
pub open spec fn same_request(a: RpgRandomRequest, b: RpgRandomRequest) -> bool {
    &&& a.kind == b.kind
    &&& a.count == b.count
    &&& a.sides == b.sides
    &&& a.path@ == b.path@
    &&& a.heterogeneous_terms@ == b.heterogeneous_terms@
}

/// The faces of every die of a term list, die by die.
pub open spec fn expand_terms(terms: Seq<RpgRandomTerm>) -> Seq<u32>
    decreases terms.len(),
{
    if terms.len() == 0 {
        Seq::empty()
    } else {
        expand_terms(terms.drop_last()) + Seq::new(
            terms.last().count as nat,
            |i: int| terms.last().sides,
        )
    }
}

/// The number of values a request checks: every supplied value of a
/// homogeneous request, every die of a heterogeneous one.
pub open spec fn checked_len(request: RpgRandomRequest, values: Seq<u32>) -> int {
    if request.heterogeneous_terms@.len() == 0 {
        values.len() as int
    } else {
        expand_terms(request.heterogeneous_terms@).len() as int
    }
}

/// The faces of the die at offset `o`.
pub open spec fn sides_at(request: RpgRandomRequest, o: int) -> u32 {
    if request.heterogeneous_terms@.len() == 0 {
        request.sides
    } else {
        expand_terms(request.heterogeneous_terms@)[o]
    }
}

/// The value at offset `o`, or 0 where none was supplied.
pub open spec fn value_at(values: Seq<u32>, o: int) -> u32 {
    if 0 <= o < values.len() {
        values[o]
    } else {
        0
    }
}

pub open spec fn offsets(n: int) -> Seq<int> {
    Seq::new(n as nat, |o: int| o)
}

pub open spec fn bad_value(request: RpgRandomRequest, values: Seq<u32>) -> spec_fn(int) -> bool {
    |o: int| value_at(values, o) == 0 || value_at(values, o) > sides_at(request, o)
}

/// The first offset whose value is outside its die, or -1.
pub open spec fn first_bad_offset(request: RpgRandomRequest, values: Seq<u32>) -> int {
    first_index_where(offsets(checked_len(request, values)), bad_value(request, values))
}

/// Whether values answer a request: every die in range and, for a
/// heterogeneous request, exactly one value per die.
pub open spec fn values_fit(request: RpgRandomRequest, values: Seq<u32>) -> bool {
    &&& first_bad_offset(request, values) < 0
    &&& (request.heterogeneous_terms@.len() != 0 ==> values.len() == expand_terms(
        request.heterogeneous_terms@,
    ).len())
}

pub proof fn lemma_expand_concat(a: Seq<RpgRandomTerm>, b: Seq<RpgRandomTerm>)
    ensures
        expand_terms(a + b) == expand_terms(a) + expand_terms(b),
    decreases b.len(),
{
    if b.len() == 0 {
        assert(a + b =~= a);
        assert(expand_terms(a) + expand_terms(b) =~= expand_terms(a));
    } else {
        lemma_expand_concat(a, b.drop_last());
        assert((a + b).drop_last() =~= a + b.drop_last());
        assert((a + b).last() == b.last());
        assert(expand_terms(a + b) =~= expand_terms(a) + expand_terms(b));
    }
}

proof fn lemma_expand_prefix(terms: Seq<RpgRandomTerm>, t: int, o: int)
    requires
        0 <= t < terms.len(),
        expand_terms(terms.take(t)).len() <= o < expand_terms(terms.take(t)).len()
            + terms[t].count,
    ensures
        o < expand_terms(terms).len(),
        expand_terms(terms)[o] == terms[t].sides,
        expand_terms(terms.take(t + 1)).len() == expand_terms(terms.take(t)).len()
            + terms[t].count,
{
    assert(terms.take(t + 1).drop_last() =~= terms.take(t));
    lemma_expand_concat(terms.take(t + 1), terms.skip(t + 1));
    assert(terms.take(t + 1) + terms.skip(t + 1) =~= terms);
}

/// Whether two requests are the same request.
pub fn requests_equal(a: &RpgRandomRequest, b: &RpgRandomRequest) -> (r: bool)
    ensures
        r == same_request(*a, *b),
{
    if a.kind != b.kind || a.count != b.count || a.sides != b.sides || a.path != b.path
        || a.heterogeneous_terms.len() != b.heterogeneous_terms.len() {
        return false;
    }
    let mut j: usize = 0;
    while j < a.heterogeneous_terms.len()
        invariant
            a.heterogeneous_terms@.len() == b.heterogeneous_terms@.len(),
            j <= a.heterogeneous_terms@.len(),
            forall|q: int| 0 <= q < j ==> a.heterogeneous_terms@[q] == b.heterogeneous_terms@[q],
        decreases a.heterogeneous_terms.len() - j,
    {
        if a.heterogeneous_terms[j] != b.heterogeneous_terms[j] {
            return false;
        }
        j = j + 1;
    }
    assert(a.heterogeneous_terms@ =~= b.heterogeneous_terms@);
    true
}

/// A copy of a request.
pub fn copy_request(r: &RpgRandomRequest) -> (c: RpgRandomRequest)
    ensures
        same_request(c, *r),
{
    let mut terms: Vec<RpgRandomTerm> = Vec::new();
    let mut j: usize = 0;
    while j < r.heterogeneous_terms.len()
        invariant
            j <= r.heterogeneous_terms@.len(),
            terms@ == r.heterogeneous_terms@.take(j as int),
        decreases r.heterogeneous_terms.len() - j,
    {
        terms.push(r.heterogeneous_terms[j]);
        j = j + 1;
        assert(terms@ =~= r.heterogeneous_terms@.take(j as int));
    }
    assert(r.heterogeneous_terms@.take(j as int) =~= r.heterogeneous_terms@);
    RpgRandomRequest {
        kind: r.kind,
        count: r.count,
        sides: r.sides,
        path: r.path.clone(),
        heterogeneous_terms: terms,
    }
}

/// The first value outside its die, as (offset, value, faces); a missing
/// value of a heterogeneous request reads as 0.
pub fn first_random_value_out_of_range(request: &RpgRandomRequest, values: &[u32]) -> (r: Option<
    (usize, u32, u32),
>)
    ensures
        match r {
            None => first_bad_offset(*request, values@) == -1,
            Some((i, v, s)) => {
                &&& first_bad_offset(*request, values@) == i
                &&& v == value_at(values@, i as int)
                &&& s == sides_at(*request, i as int)
            },
        },
{
    let ghost seq = offsets(checked_len(*request, values@));
    let ghost f = bad_value(*request, values@);
    if request.heterogeneous_terms.len() == 0 {
        let mut i: usize = 0;
        while i < values.len()
            invariant
                request.heterogeneous_terms@.len() == 0,
                seq == offsets(checked_len(*request, values@)),
                f == bad_value(*request, values@),
                i <= values@.len(),
                forall|o: int| 0 <= o < i ==> !f(#[trigger] seq[o]),
            decreases values.len() - i,
        {
            if values[i] == 0 || values[i] > request.sides {
                proof {
                    assert(f(seq[i as int]));
                    lemma_first_index_is(seq, f, i as int);
                }
                return Some((i, values[i], request.sides));
            }
            i = i + 1;
        }
        proof {
            lemma_first_index_is(seq, f, -1);
        }
        return None;
    }
    let terms = &request.heterogeneous_terms;
    let mut offset: usize = 0;
    let mut t: usize = 0;
    while t < terms.len()
        invariant
            terms@ == request.heterogeneous_terms@,
            terms@.len() > 0,
            seq == offsets(checked_len(*request, values@)),
            f == bad_value(*request, values@),
            t <= terms@.len(),
            offset as int == expand_terms(terms@.take(t as int)).len(),
            offset <= values@.len(),
            forall|o: int| 0 <= o < offset ==> !f(#[trigger] seq[o]),
        decreases terms.len() - t,
    {
        let term = terms[t];
        let mut j: u32 = 0;
        while j < term.count
            invariant
                terms@ == request.heterogeneous_terms@,
                terms@.len() > 0,
                seq == offsets(checked_len(*request, values@)),
                f == bad_value(*request, values@),
                t < terms@.len(),
                term == terms@[t as int],
                j <= term.count,
                offset as int == expand_terms(terms@.take(t as int)).len() + j,
                offset <= values@.len(),
                forall|o: int| 0 <= o < offset ==> !f(#[trigger] seq[o]),
            decreases term.count - j,
        {
            proof {
                lemma_expand_prefix(terms@, t as int, offset as int);
            }
            let value = if offset < values.len() {
                values[offset]
            } else {
                0
            };
            if value == 0 || value > term.sides {
                proof {
                    assert(f(seq[offset as int]));
                    lemma_first_index_is(seq, f, offset as int);
                }
                return Some((offset, value, term.sides));
            }
            offset = offset + 1;
            j = j + 1;
        }
        proof {
            assert(terms@.take(t + 1).drop_last() =~= terms@.take(t as int));
        }
        t = t + 1;
    }
    proof {
        assert(terms@.take(t as int) =~= terms@);
        lemma_first_index_is(seq, f, -1);
    }
    None
}

/// Whether values fail to answer a request (some die out of range, or, for
/// a heterogeneous request, a missing or surplus value).
pub fn random_values_out_of_range(request: &RpgRandomRequest, values: &[u32]) -> (r: bool)
    ensures
        r == !values_fit(*request, values@),
{
    match first_random_value_out_of_range(request, values) {
        Some(_) => true,
        None => {
            if request.heterogeneous_terms.len() == 0 {
                false
            } else {
                proof {
                    let ghost n = expand_terms(request.heterogeneous_terms@).len() as int;
                    if n > values@.len() {
                        lemma_first_index_where_range(*request, values@, values@.len() as int);
                    }
                }
                expanded_len_differs(request, values.len())
            }
        },
    }
}

proof fn lemma_first_index_where_range(request: RpgRandomRequest, values: Seq<u32>, o: int)
    requires
        0 <= o < checked_len(request, values),
        o >= values.len(),
    ensures
        first_bad_offset(request, values) >= 0,
{
    let seq = offsets(checked_len(request, values));
    let f = bad_value(request, values);
    crate::model::lemma_first_index_where(seq, f);
    assert(f(seq[o]));
}

/// Whether the dice of a heterogeneous request number other than `n`
/// (given that none of the first `n` dice is missing its value).
fn expanded_len_differs(request: &RpgRandomRequest, n: usize) -> (r: bool)
    requires
        expand_terms(request.heterogeneous_terms@).len() <= n,
    ensures
        r == (expand_terms(request.heterogeneous_terms@).len() != n),
{
    let terms = &request.heterogeneous_terms;
    let mut total: usize = 0;
    let mut t: usize = 0;
    while t < terms.len()
        invariant
            terms@ == request.heterogeneous_terms@,
            expand_terms(terms@).len() <= n,
            t <= terms@.len(),
            total as int == expand_terms(terms@.take(t as int)).len(),
        decreases terms.len() - t,
    {
        proof {
            assert(terms@.take(t + 1).drop_last() =~= terms@.take(t as int));
            lemma_expand_concat(terms@.take(t + 1), terms@.skip(t + 1));
            assert(terms@.take(t + 1) + terms@.skip(t + 1) =~= terms@);
        }
        total = total + terms[t].count as usize;
        t = t + 1;
    }
    proof {
        assert(terms@.take(t as int) =~= terms@);
    }
    total != n
}

/// A random-source failure with no requests attached.
pub fn random_failure(code: &str, path: String, message: String) -> (f: RpgRandomSourceFailure)
    ensures
        f.code@ == code@,
        f.path@ == path@,
        f.message@ == message@,
        f.expected_request is None,
        f.actual_request is None,
{
    RpgRandomSourceFailure {
        code: text(code),
        path,
        message,
        expected_request: None,
        actual_request: None,
    }
}

/// A source of bounded random values answering authority requests.
pub trait RpgRandomSource: Send {
    /// The policy and source this source is bound to, as a value.
    spec fn bound_binding(&self) -> RpgRandomSourceBinding;

    /// The policy and source this source is bound to.
    fn binding(&self) -> (b: &RpgRandomSourceBinding)
        ensures
            *b == self.bound_binding(),
    ;

    /// Whether `r` is an answer this source, in its current state, may give
    /// to `request`.
    spec fn answers(&self, request: RpgRandomRequest, r: Result<Vec<u32>, RpgRandomSourceFailure>) -> bool;

    /// The values answering `request`, or why the source refuses it.
    fn draw(&mut self, request: &RpgRandomRequest) -> (r: Result<Vec<u32>, RpgRandomSourceFailure>)
        ensures
            old(self).answers(*request, r),
    ;
}

/// A recorded sequence of requests and the values that answered them,
/// consumed strictly in order.
#[derive(Debug, Clone)]
pub struct RpgRollTapeSource {
    binding: RpgRandomSourceBinding,
    entries: VecDeque<RpgRollTapeEntry>,
    consumed_entries: u64,
    consumed_values: u64,
}

/// `roll-tape entry contains {n} value(s), but authority requested {count}`.
pub open spec fn tape_count_message(n: nat, count: nat) -> Seq<char> {
    "roll-tape entry contains "@ + decimal(n) + " value(s), but authority requested "@ + decimal(
        count,
    )
}

/// Why a tape whose remaining entries are `entries` refuses `request`, as
/// (code, message), or `None` when its next entry answers it.
pub open spec fn tape_refusal(entries: Seq<RpgRollTapeEntry>, request: RpgRandomRequest) -> Option<
    (Seq<char>, Seq<char>),
> {
    if entries.len() == 0 {
        Some(
            (
                "RPG_RANDOM_TAPE_EXHAUSTED"@,
                "authority requested "@ + decimal(request.count as nat)
                    + " bounded value(s), but the roll tape is exhausted"@,
            ),
        )
    } else {
        let entry = entries[0];
        let n = entry.values@.len();
        let o = first_bad_offset(request, entry.values@);
        if !same_request(entry.request, request) {
            Some(
                (
                    "RPG_RANDOM_TAPE_REQUEST_ORDER_MISMATCH"@,
                    "the next roll-tape request does not match the authority request"@,
                ),
            )
        } else if n > request.count {
            Some(("RPG_RANDOM_TAPE_UNUSED_EVIDENCE"@, tape_count_message(n, request.count as nat)))
        } else if n < request.count {
            Some(("RPG_RANDOM_TAPE_EXHAUSTED"@, tape_count_message(n, request.count as nat)))
        } else if o >= 0 {
            Some(
                (
                    "RPG_RANDOM_TAPE_VALUE_OUT_OF_RANGE"@,
                    "roll-tape value "@ + decimal(value_at(entry.values@, o) as nat) + " at offset "@
                        + decimal(o as nat) + " is outside 1..="@ + decimal(
                        sides_at(request, o) as nat,
                    ),
                ),
            )
        } else {
            None
        }
    }
}

pub open spec fn saturating_increment(a: u64, b: u64) -> u64 {
    if a + b > u64::MAX {
        u64::MAX
    } else {
        (a + b) as u64
    }
}

impl RpgRollTapeSource {
    /// The entries not yet consumed, in order.
    pub closed spec fn tape(&self) -> Seq<RpgRollTapeEntry> {
        self.entries@
    }

    pub closed spec fn entries_consumed(&self) -> u64 {
        self.consumed_entries
    }

    pub closed spec fn values_consumed(&self) -> u64 {
        self.consumed_values
    }

    pub closed spec fn bound_to(&self) -> RpgRandomSourceBinding {
        self.binding
    }

    /// A tape holding `entries` in order, nothing consumed yet.
    pub fn new(binding: RpgRandomSourceBinding, entries: Vec<RpgRollTapeEntry>) -> (s: Self)
        ensures
            s.tape() == entries@,
            s.entries_consumed() == 0,
            s.values_consumed() == 0,
            s.bound_to() == binding,
    {
        let ghost all = entries@;
        let mut rest = entries;
        let mut tape: VecDeque<RpgRollTapeEntry> = VecDeque::new();
        while rest.len() > 0
            invariant
                rest@ + tape@ == all,
            decreases rest.len(),
        {
            let ghost before = rest@;
            match rest.pop() {
                Some(entry) => {
                    tape.push_front(entry);
                    assert(before == rest@.push(entry));
                    assert(rest@ + tape@ =~= all);
                },
                None => {},
            }
        }
        assert(tape@ =~= all);
        RpgRollTapeSource { binding, entries: tape, consumed_entries: 0, consumed_values: 0 }
    }

    /// How many entries remain.
    pub fn remaining_entries(&self) -> (n: usize)
        ensures
            n == self.tape().len(),
    {
        self.entries.len()
    }

    /// How many entries have been consumed (saturating).
    pub fn consumed_entries(&self) -> (n: u64)
        ensures
            n == self.entries_consumed(),
    {
        self.consumed_entries
    }

    /// How many values have been consumed (saturating).
    pub fn consumed_values(&self) -> (n: u64)
        ensures
            n == self.values_consumed(),
    {
        self.consumed_values
    }

    /// Succeeds exactly when every entry has been consumed.
    pub fn require_exhausted(&self) -> (r: Result<(), RpgRandomSourceFailure>)
        ensures
            r is Ok <==> self.tape().len() == 0,
            r matches Err(f) ==> {
                &&& f.code@ == "RPG_RANDOM_TAPE_UNUSED_EVIDENCE"@
                &&& f.path@ == "$.rollTape"@
                &&& f.message@ == decimal(self.tape().len())
                    + " roll-tape request entrie(s) were not consumed"@
                &&& f.expected_request is None
                &&& f.actual_request is None
            },
    {
        if self.entries.len() == 0 {
            return Ok(());
        }
        let mut message = String::new();
        push_decimal(&mut message, self.entries.len() as u64);
        let message = join(message.as_str(), " roll-tape request entrie(s) were not consumed");
        Err(random_failure("RPG_RANDOM_TAPE_UNUSED_EVIDENCE", text("$.rollTape"), message))
    }
}

fn count_message(n: usize, count: u32) -> (m: String)
    ensures
        m@ == tape_count_message(n as nat, count as nat),
{
    let mut m = text("roll-tape entry contains ");
    push_decimal(&mut m, n as u64);
    m = join(m.as_str(), " value(s), but authority requested ");
    push_decimal(&mut m, count as u64);
    m
}

impl RpgRandomSource for RpgRollTapeSource {
    /// A tape answers with its next entry's values when that entry answers
    /// the request, and otherwise refuses with the tape refusal at the
    /// request's path.
    open spec fn answers(
        &self,
        request: RpgRandomRequest,
        r: Result<Vec<u32>, RpgRandomSourceFailure>,
    ) -> bool {
        match tape_refusal(self.tape(), request) {
            None => r matches Ok(values) && values@ == self.tape()[0].values@,
            Some((code, message)) => r matches Err(f) && f.code@ == code && f.message@ == message
                && f.path@ == request.path@,
        }
    }

    open spec fn bound_binding(&self) -> RpgRandomSourceBinding {
        self.bound_to()
    }

    fn binding(&self) -> (b: &RpgRandomSourceBinding)
        ensures
            *b == self.bound_to(),
    {
        &self.binding
    }

    /// Answers `request` with the next entry's values when that entry records
    /// the same request with exactly one in-range value per die; otherwise
    /// refuses and leaves the tape unchanged.
    fn draw(&mut self, request: &RpgRandomRequest) -> (r: Result<Vec<u32>, RpgRandomSourceFailure>)
        ensures
            r is Ok <==> tape_refusal(old(self).tape(), *request) is None,
            r matches Ok(values) ==> {
                &&& values@ == old(self).tape()[0].values@
                &&& final(self).tape() == old(self).tape().drop_first()
                &&& final(self).entries_consumed() == saturating_increment(
                    old(self).entries_consumed(),
                    1,
                )
                &&& final(self).values_consumed() == saturating_increment(
                    old(self).values_consumed(),
                    request.count as u64,
                )
                &&& final(self).bound_to() == old(self).bound_to()
            },
            r matches Err(f) ==> {
                &&& *final(self) == *old(self)
                &&& tape_refusal(old(self).tape(), *request) == Some((f.code@, f.message@))
                &&& f.path@ == request.path@
                &&& if old(self).tape().len() > 0 && !same_request(
                    old(self).tape()[0].request,
                    *request,
                ) {
                    &&& f.expected_request matches Some(e) && same_request(
                        *e,
                        old(self).tape()[0].request,
                    )
                    &&& f.actual_request matches Some(a) && same_request(*a, *request)
                } else {
                    f.expected_request is None && f.actual_request is None
                }
            },
    {
        if self.entries.len() == 0 {
            let mut message = text("authority requested ");
            push_decimal(&mut message, request.count as u64);
            let message = join(message.as_str(), " bounded value(s), but the roll tape is exhausted");
            return Err(random_failure("RPG_RANDOM_TAPE_EXHAUSTED", request.path.clone(), message));
        }
        let entry = &self.entries[0];
        if !requests_equal(&entry.request, request) {
            let mut failure = random_failure(
                "RPG_RANDOM_TAPE_REQUEST_ORDER_MISMATCH",
                request.path.clone(),
                text("the next roll-tape request does not match the authority request"),
            );
            failure.expected_request = Some(Box::new(copy_request(&entry.request)));
            failure.actual_request = Some(Box::new(copy_request(request)));
            return Err(failure);
        }
        let n = entry.values.len();
        if n > request.count as usize {
            return Err(
                random_failure(
                    "RPG_RANDOM_TAPE_UNUSED_EVIDENCE",
                    request.path.clone(),
                    count_message(n, request.count),
                ),
            );
        }
        if n < request.count as usize {
            return Err(
                random_failure(
                    "RPG_RANDOM_TAPE_EXHAUSTED",
                    request.path.clone(),
                    count_message(n, request.count),
                ),
            );
        }
        match first_random_value_out_of_range(request, entry.values.as_slice()) {
            Some((index, value, sides)) => {
                let mut message = text("roll-tape value ");
                push_decimal(&mut message, value as u64);
                message = join(message.as_str(), " at offset ");
                push_decimal(&mut message, index as u64);
                message = join(message.as_str(), " is outside 1..=");
                push_decimal(&mut message, sides as u64);
                return Err(
                    random_failure(
                        "RPG_RANDOM_TAPE_VALUE_OUT_OF_RANGE",
                        request.path.clone(),
                        message,
                    ),
                );
            },
            None => {},
        }
        let ghost before = self.entries@;
        match self.entries.pop_front() {
            Some(entry) => {
                assert(self.entries@ =~= before.drop_first());
                self.consumed_entries = self.consumed_entries.saturating_add(1);
                self.consumed_values = self.consumed_values.saturating_add(request.count as u64);
                Ok(entry.values)
            },
            None => Err(
                random_failure(
                    "RPG_RANDOM_TAPE_EXHAUSTED",
                    request.path.clone(),
                    text("the roll tape is exhausted"),
                ),
            ),
        }
    }
}

/// The most random values one automatic command may gather.
pub const MAXIMUM_AUTOMATIC_RANDOM_VALUES: usize = 4096;

/// Whether gathering `request` onto `existing` values is refused before any
/// draw: an empty request, or one past the automatic evidence limit.
pub open spec fn extension_refused(existing: nat, request: RpgRandomRequest) -> bool {
    request.count == 0 || existing + request.count > MAXIMUM_AUTOMATIC_RANDOM_VALUES
}

/// What accepting `drawn` for `request` onto `existing` values gives: the
/// result `r` and the values `after`. A refusal of the source is handed back;
/// a wrong count or an out-of-range value is refused; otherwise the values
/// are appended.
pub open spec fn drawn_outcome(
    existing: Seq<u32>,
    request: RpgRandomRequest,
    drawn: Result<Vec<u32>, RpgRandomSourceFailure>,
    r: Result<(), RpgRandomSourceFailure>,
    after: Seq<u32>,
) -> bool {
    match drawn {
        Err(f) => r == Err::<(), RpgRandomSourceFailure>(f) && after == existing,
        Ok(values) => if values@.len() != request.count {
            &&& after == existing
            &&& r matches Err(f) && f.code@ == "RPG_RANDOM_SOURCE_COUNT_MISMATCH"@ && f.path@
                == request.path@ && f.message@ == "random source returned "@ + decimal(
                values@.len(),
            ) + " values for an authority request of "@ + decimal(request.count as nat)
        } else if !values_fit(request, values@) {
            &&& after == existing
            &&& r matches Err(f) && f.code@ == "RPG_RANDOM_SOURCE_VALUE_OUT_OF_RANGE"@ && f.path@
                == request.path@ && f.message@
                == "random source returned evidence outside the authority die bounds"@
        } else {
            r is Ok && after == existing + values@
        },
    }
}

/// Checks what a random source answered to `request` and, when it answers the
/// request (one value per requested die, each in range), appends it to
/// `random_values`; otherwise leaves them unchanged and says why.
pub fn accept_drawn_values(
    random_values: &mut Vec<u32>,
    request: &RpgRandomRequest,
    drawn: Result<Vec<u32>, RpgRandomSourceFailure>,
) -> (r: Result<(), RpgRandomSourceFailure>)
    ensures
        drawn_outcome(old(random_values)@, *request, drawn, r, final(random_values)@),
{
    match drawn {
        Err(f) => Err(f),
        Ok(values) => {
            if values.len() != request.count as usize {
                let mut message = text("random source returned ");
                push_decimal(&mut message, values.len() as u64);
                message = join(message.as_str(), " values for an authority request of ");
                push_decimal(&mut message, request.count as u64);
                return Err(
                    random_failure(
                        "RPG_RANDOM_SOURCE_COUNT_MISMATCH",
                        request.path.clone(),
                        message,
                    ),
                );
            }
            if random_values_out_of_range(request, values.as_slice()) {
                return Err(
                    random_failure(
                        "RPG_RANDOM_SOURCE_VALUE_OUT_OF_RANGE",
                        request.path.clone(),
                        text("random source returned evidence outside the authority die bounds"),
                    ),
                );
            }
            let mut values = values;
            random_values.append(&mut values);
            Ok(())
        },
    }
}

/// Draws the values answering `request` from `source` and appends them to
/// `random_values`. Refuses, before drawing, an empty request or one past the
/// automatic evidence limit; what the source answers is then checked by
/// `accept_drawn_values`.
pub fn extend_random_values<S: RpgRandomSource>(
    random_values: &mut Vec<u32>,
    request: &RpgRandomRequest,
    source: &mut S,
) -> (r: Result<(), RpgRandomSourceFailure>)
    ensures
        extension_refused(old(random_values)@.len(), *request) ==> {
            &&& final(random_values)@ == old(random_values)@
            &&& r matches Err(f) && f.code@ == "RPG_RANDOM_VALUE_LIMIT_EXCEEDED"@ && f.path@
                == request.path@ && f.message@
                == "authority random request exceeds the bounded automatic evidence limit"@
        },
        !extension_refused(old(random_values)@.len(), *request) ==> exists|
            drawn: Result<Vec<u32>, RpgRandomSourceFailure>,
        |
            #[trigger] old(source).answers(*request, drawn) && drawn_outcome(
                old(random_values)@,
                *request,
                drawn,
                r,
                final(random_values)@,
            ),
        r is Ok ==> {
            &&& !extension_refused(old(random_values)@.len(), *request)
            &&& exists|values: Seq<u32>|
                final(random_values)@ == old(random_values)@ + values && values.len()
                    == request.count && values_fit(*request, values)
        },
        r is Err ==> final(random_values)@ == old(random_values)@,
{
    let count = request.count as usize;
    if count == 0 || random_values.len().saturating_add(count) > MAXIMUM_AUTOMATIC_RANDOM_VALUES {
        return Err(
            random_failure(
                "RPG_RANDOM_VALUE_LIMIT_EXCEEDED",
                request.path.clone(),
                text("authority random request exceeds the bounded automatic evidence limit"),
            ),
        );
    }
    let drawn = source.draw(request);
    let ghost answered = drawn;
    let r = accept_drawn_values(random_values, request, drawn);
    proof {
        if r is Ok {
            let values = answered->Ok_0@;
            assert(final(random_values)@ == old(random_values)@ + values);
        }
    }
    r
}

/// Refuses a random source bound to another policy or source than the
/// encounter's.
pub fn require_random_source<S: RpgRandomSource>(
    source: &S,
    encounter_binding: &RpgRandomSourceBinding,
) -> (r: Result<(), RpgRandomSourceFailure>)
    ensures
        r is Ok <==> crate::replay::same_binding(source.bound_binding(), *encounter_binding),
        r matches Err(f) ==> {
            &&& f.code@ == "RPG_RANDOM_SOURCE_BINDING_MISMATCH"@
            &&& f.path@ == "$.randomSource"@
            &&& f.expected_request is None
            &&& f.actual_request is None
        },
{
    let bound = source.binding();
    if crate::replay::same_binding_exec(bound, encounter_binding) {
        return Ok(());
    }
    let head = join(
        "source binding ",
        crate::replay::debug_text(bound).as_str(),
    );
    let tail = join(
        " does not match encounter binding ",
        crate::replay::debug_text(encounter_binding).as_str(),
    );
    Err(random_failure("RPG_RANDOM_SOURCE_BINDING_MISMATCH", text("$.randomSource"), join(head.as_str(), tail.as_str())))
}

} // verus!
