//! Derivation paths: `m`, or `m` followed by components `/ number`, each
//! number below 2^31 and optionally marked hardened by `'` or `h`.

use crate::bytes::append;
use crate::text::{from_chars, to_chars};
use vstd::prelude::*;
use vstd::slice::slice_to_vec;

verus! {

/// The first index that is no child index: 2^31.
pub const INDEX_LIMIT: u32 = 0x8000_0000;

/// The greatest number of components of a path: a key's depth is one byte.
pub const MAX_PATH_LENGTH: usize = 255;

/// Why a text is no derivation path.
#[derive(Clone, Copy, PartialEq, Eq, Debug, Structural)]
pub enum PathError {
    /// The text does not follow the grammar.
    Malformed,
    /// A component is 2^31 or more.
    IndexOutOfRange,
    /// More than 255 components.
    TooLong,
}

/// A step of a path as a mathematical value.
pub struct StepView {
    pub index: u32,
    pub hardened: bool,
}

/// One component of a path: an index below 2^31, hardened or not.
#[derive(Clone, Copy, PartialEq, Eq, Debug)]
pub struct ChildIndex {
    index: u32,
    hardened: bool,
}

impl View for ChildIndex {
    type V = StepView;

    closed spec fn view(&self) -> StepView {
        StepView { index: self.index, hardened: self.hardened }
    }
}

impl ChildIndex {
    #[verifier::type_invariant]
    closed spec fn well_formed(&self) -> bool {
        self.index < INDEX_LIMIT
    }

    /// A component, if the index is below 2^31.
    pub fn new(index: u32, hardened: bool) -> (step: Option<ChildIndex>)
        ensures
            step is Some <==> index < INDEX_LIMIT,
            step matches Some(s) ==> s@ == (StepView { index, hardened }),
    {
        if index < INDEX_LIMIT {
            Some(ChildIndex { index, hardened })
        } else {
            None
        }
    }

    pub fn index(&self) -> (index: u32)
        ensures
            index == self@.index,
            index < INDEX_LIMIT,
    {
        proof {
            use_type_invariant(self);
        }
        self.index
    }

    pub fn is_hardened(&self) -> (hardened: bool)
        ensures
            hardened == self@.hardened,
    {
        self.hardened
    }
}

/// The steps of a path as mathematical values.
pub open spec fn steps_view(steps: Seq<ChildIndex>) -> Seq<StepView> {
    Seq::new(steps.len(), |i: int| steps[i]@)
}

/// A path from a master key to a descendant: at most 255 components.
#[derive(Debug)]
pub struct DerivationPath {
    steps: Vec<ChildIndex>,
}

impl View for DerivationPath {
    type V = Seq<StepView>;

    closed spec fn view(&self) -> Seq<StepView> {
        steps_view(self.steps@)
    }
}

/// A decimal digit.
pub open spec fn is_digit(c: char) -> bool {
    '0' <= c <= '9'
}

/// Every character is a decimal digit.
pub open spec fn all_digits(text: Seq<char>) -> bool {
    forall|i: int| 0 <= i < text.len() ==> is_digit(#[trigger] text[i])
}

/// The number that decimal digits spell.
pub open spec fn decimal_value(digits: Seq<char>) -> nat
    decreases digits.len(),
{
    if digits.len() == 0 {
        0
    } else {
        10 * decimal_value(digits.drop_last()) + ((digits.last() as u32 - 48) as nat)
    }
}

/// The decimal digits of a number, without leading zeros; `0` for zero.
pub open spec fn decimal_text(n: nat) -> Seq<char>
    decreases n,
{
    if n < 10 {
        seq![((48 + n) as u32) as char]
    } else {
        decimal_text(n / 10).push(((48 + n % 10) as u32) as char)
    }
}

/// What one component says.
pub open spec fn spec_parse_component(text: Seq<char>) -> Result<StepView, PathError> {
    let hardened = text.len() > 0 && (text.last() == '\'' || text.last() == 'h');
    let digits = if hardened {
        text.drop_last()
    } else {
        text
    };
    if digits.len() == 0 || !all_digits(digits) {
        Err(PathError::Malformed)
    } else if decimal_value(digits) >= INDEX_LIMIT {
        Err(PathError::IndexOutOfRange)
    } else {
        Ok(StepView { index: decimal_value(digits) as u32, hardened })
    }
}

/// How many characters stand before the first `/`.
pub open spec fn component_end(text: Seq<char>) -> nat
    decreases text.len(),
{
    if text.len() == 0 || text[0] == '/' {
        0
    } else {
        1 + component_end(text.skip(1))
    }
}

/// What the part after `m` says, `count` components having been read: it is
/// empty, or `/`, a component, and a part of the same form.
pub open spec fn spec_parse_tail(tail: Seq<char>, count: nat) -> Result<Seq<StepView>, PathError>
    decreases tail.len(),
{
    if tail.len() == 0 {
        Ok(Seq::empty())
    } else if tail[0] != '/' {
        Err(PathError::Malformed)
    } else if count >= MAX_PATH_LENGTH {
        Err(PathError::TooLong)
    } else {
        let body = tail.skip(1);
        let end = component_end(body);
        if end > body.len() {
            Err(PathError::Malformed)
        } else {
            match spec_parse_component(body.take(end as int)) {
                Err(error) => Err(error),
                Ok(step) => match spec_parse_tail(body.skip(end as int), count + 1) {
                    Err(error) => Err(error),
                    Ok(rest) => Ok(seq![step] + rest),
                },
            }
        }
    }
}

/// What a path text says.
pub open spec fn spec_parse(text: Seq<char>) -> Result<Seq<StepView>, PathError> {
    if text.len() == 0 || text[0] != 'm' {
        Err(PathError::Malformed)
    } else {
        spec_parse_tail(text.skip(1), 0)
    }
}

/// The text of one component.
pub open spec fn step_text(step: StepView) -> Seq<char> {
    if step.hardened {
        decimal_text(step.index as nat).push('\'')
    } else {
        decimal_text(step.index as nat)
    }
}

/// The text of the components of a path, each after a `/`.
pub open spec fn steps_text(steps: Seq<StepView>) -> Seq<char>
    decreases steps.len(),
{
    if steps.len() == 0 {
        Seq::empty()
    } else {
        steps_text(steps.drop_last()) + seq!['/'] + step_text(steps.last())
    }
}

/// The text of a path.
pub open spec fn spec_text(steps: Seq<StepView>) -> Seq<char> {
    seq!['m'] + steps_text(steps)
}

/// The end of a component is inside the text, no slash stands before it,
/// and a slash stands at it unless the text ends there.
pub(crate) proof fn lemma_component_end(text: Seq<char>)
    ensures
        component_end(text) <= text.len(),
        forall|i: int| 0 <= i < component_end(text) ==> #[trigger] text[i] != '/',
        component_end(text) < text.len() ==> text[component_end(text) as int] == '/',
    decreases text.len(),
{
    if text.len() != 0 && text[0] != '/' {
        let rest = text.skip(1);
        lemma_component_end(rest);
        assert forall|i: int| 0 <= i < component_end(text) implies #[trigger] text[i] != '/' by {
            if i > 0 {
                assert(rest[i - 1] == text[i]);
            }
        }
        if component_end(text) < text.len() {
            assert(rest[component_end(rest) as int] == text[component_end(text) as int]);
        }
    }
}

proof fn lemma_decimal(n: nat)
    ensures
        decimal_text(n).len() > 0,
        all_digits(decimal_text(n)),
        decimal_value(decimal_text(n)) == n,
    decreases n,
{
    let text = decimal_text(n);
    if n < 10 {
        assert(text.drop_last() =~= Seq::<char>::empty());
        assert(decimal_value(Seq::<char>::empty()) == 0);
        assert(text.last() == ((48 + n) as u32) as char);
        assert(text.last() as u32 == 48 + n);
    } else {
        lemma_decimal(n / 10);
        let front = decimal_text(n / 10);
        assert(text.drop_last() =~= front);
        assert(text.last() == ((48 + n % 10) as u32) as char);
        assert(text.last() as u32 == 48 + n % 10);
        assert forall|i: int| 0 <= i < text.len() implies is_digit(#[trigger] text[i]) by {
            if i < front.len() {
                assert(text[i] == front[i]);
            }
        }
    }
}

proof fn lemma_component_of_step(step: StepView)
    requires
        step.index < INDEX_LIMIT,
    ensures
        spec_parse_component(step_text(step)) == Ok::<StepView, PathError>(step),
        step_text(step).len() > 0,
        forall|i: int| 0 <= i < step_text(step).len() ==> #[trigger] step_text(step)[i] != '/',
{
    let digits = decimal_text(step.index as nat);
    lemma_decimal(step.index as nat);
    let text = step_text(step);
    if step.hardened {
        assert(text.drop_last() =~= digits);
        assert(text.last() == '\'');
    } else {
        assert(is_digit(digits[digits.len() - 1]));
    }
    assert forall|i: int| 0 <= i < text.len() implies #[trigger] text[i] != '/' by {
        if i < digits.len() {
            assert(is_digit(digits[i]));
        }
    }
}

proof fn lemma_component_end_of(part: Seq<char>, rest: Seq<char>)
    requires
        forall|i: int| 0 <= i < part.len() ==> #[trigger] part[i] != '/',
        rest.len() == 0 || rest[0] == '/',
    ensures
        component_end(part + rest) == part.len(),
    decreases part.len(),
{
    let text = part + rest;
    if part.len() == 0 {
        assert(text =~= rest);
    } else {
        assert(text[0] == part[0]);
        let tail = part.drop_first();
        assert(text.skip(1) =~= tail + rest);
        assert forall|i: int| 0 <= i < tail.len() implies #[trigger] tail[i] != '/' by {
            assert(tail[i] == part[i + 1]);
        }
        lemma_component_end_of(tail, rest);
        assert(component_end(text) == 1 + component_end(text.skip(1)));
    }
}

proof fn lemma_steps_text_front(steps: Seq<StepView>)
    requires
        steps.len() > 0,
    ensures
        steps_text(steps) == seq!['/'] + step_text(steps[0]) + steps_text(steps.drop_first()),
    decreases steps.len(),
{
    if steps.len() == 1 {
        assert(steps.drop_last() =~= Seq::<StepView>::empty());
        assert(steps.drop_first() =~= Seq::<StepView>::empty());
        assert(steps_text(steps) =~= seq!['/'] + step_text(steps[0]) + steps_text(
            steps.drop_first(),
        ));
    } else {
        let front = steps.drop_last();
        lemma_steps_text_front(front);
        assert(front.drop_first() =~= steps.drop_first().drop_last());
        assert(steps.drop_first().last() == steps.last());
        assert(steps_text(steps) =~= seq!['/'] + step_text(steps[0]) + steps_text(
            steps.drop_first(),
        ));
    }
}

proof fn lemma_parse_tail_step(
    tail: Seq<char>,
    count: nat,
    part: Seq<char>,
    step: StepView,
    rest_text: Seq<char>,
    rest: Seq<StepView>,
)
    requires
        tail == seq!['/'] + (part + rest_text),
        count < MAX_PATH_LENGTH,
        spec_parse_component(part) == Ok::<StepView, PathError>(step),
        forall|i: int| 0 <= i < part.len() ==> #[trigger] part[i] != '/',
        rest_text.len() == 0 || rest_text[0] == '/',
        spec_parse_tail(rest_text, count + 1) == Ok::<Seq<StepView>, PathError>(rest),
    ensures
        spec_parse_tail(tail, count) == Ok::<Seq<StepView>, PathError>(seq![step] + rest),
{
    assert(tail[0] == '/');
    let body = tail.skip(1);
    assert(body =~= part + rest_text);
    lemma_component_end_of(part, rest_text);
    assert(body.take(part.len() as int) =~= part);
    assert(body.skip(part.len() as int) =~= rest_text);
}

proof fn lemma_parse_tail_of_text(steps: Seq<StepView>, count: nat)
    requires
        count + steps.len() <= MAX_PATH_LENGTH,
        forall|i: int| 0 <= i < steps.len() ==> (#[trigger] steps[i]).index < INDEX_LIMIT,
    ensures
        spec_parse_tail(steps_text(steps), count) == Ok::<Seq<StepView>, PathError>(steps),
        steps_text(steps).len() == 0 || steps_text(steps)[0] == '/',
    decreases steps.len(),
{
    if steps.len() == 0 {
        assert(steps =~= Seq::<StepView>::empty());
    } else {
        let first = steps[0];
        let rest = steps.drop_first();
        let part = step_text(first);
        let rest_text = steps_text(rest);
        lemma_steps_text_front(steps);
        lemma_component_of_step(first);
        assert forall|i: int| 0 <= i < rest.len() implies (#[trigger] rest[i]).index
            < INDEX_LIMIT by {
            assert(rest[i] == steps[i + 1]);
        }
        lemma_parse_tail_of_text(rest, count + 1);
        let tail = steps_text(steps);
        assert(tail =~= seq!['/'] + (part + rest_text));
        lemma_parse_tail_step(tail, count, part, first, rest_text, rest);
        assert(seq![first] + rest =~= steps);
        assert(tail[0] == '/');
    }
}

/// Reading the text of a path gives back the path.
pub proof fn lemma_parse_text(steps: Seq<StepView>)
    requires
        steps.len() <= MAX_PATH_LENGTH,
        forall|i: int| 0 <= i < steps.len() ==> (#[trigger] steps[i]).index < INDEX_LIMIT,
    ensures
        spec_parse(spec_text(steps)) == Ok::<Seq<StepView>, PathError>(steps),
{
    lemma_parse_tail_of_text(steps, 0);
    let text = spec_text(steps);
    assert(text[0] == 'm');
    assert(text.skip(1) =~= steps_text(steps));
}

fn parse_component(text: &[char]) -> (result: Result<ChildIndex, PathError>)
    ensures
        match (result, spec_parse_component(text@)) {
            (Ok(got), Ok(want)) => got@ == want,
            (Err(got), Err(want)) => got == want,
            _ => false,
        },
{
    let len = text.len();
    let hardened = len > 0 && (text[len - 1] == '\'' || text[len - 1] == 'h');
    let end = if hardened {
        len - 1
    } else {
        len
    };
    let ghost digits = text@.take(end as int);
    proof {
        if hardened {
            assert(digits =~= text@.drop_last());
        } else {
            assert(digits =~= text@);
        }
    }
    if end == 0 {
        return Err(PathError::Malformed);
    }
    let mut value: u64 = 0;
    let mut i: usize = 0;
    while i < end
        invariant
            i <= end <= text.len(),
            0 < end,
            digits == text@.take(end as int),
            digits == (if hardened {
                text@.drop_last()
            } else {
                text@
            }),
            hardened == (text@.len() > 0 && (text@.last() == '\'' || text@.last() == 'h')),
            all_digits(digits.take(i as int)),
            value <= INDEX_LIMIT,
            value == if decimal_value(digits.take(i as int)) < INDEX_LIMIT {
                decimal_value(digits.take(i as int))
            } else {
                INDEX_LIMIT as nat
            },
        decreases end - i,
    {
        let c = text[i];
        if !('0' <= c && c <= '9') {
            assert(!is_digit(digits[i as int]));
            return Err(PathError::Malformed);
        }
        let d = (c as u32 - 48) as u64;
        proof {
            let next = digits.take(i + 1);
            assert(next.drop_last() =~= digits.take(i as int));
            assert(next.last() == c);
            assert forall|j: int| 0 <= j < next.len() implies is_digit(#[trigger] next[j]) by {
                if j < i {
                    assert(digits.take(i as int)[j] == next[j]);
                }
            }
        }
        let next_value = value * 10 + d;
        value = if next_value < INDEX_LIMIT as u64 {
            next_value
        } else {
            INDEX_LIMIT as u64
        };
        i += 1;
    }
    proof {
        assert(digits.take(end as int) =~= digits);
    }
    if value >= INDEX_LIMIT as u64 {
        return Err(PathError::IndexOutOfRange);
    }
    Ok(ChildIndex { index: value as u32, hardened })
}

/// Appends the decimal digits of a number.
fn push_decimal(out: &mut Vec<char>, n: u64)
    ensures
        final(out)@ == old(out)@ + decimal_text(n as nat),
    decreases n,
{
    if n < 10 {
        out.push((48 + n) as u8 as char);
        assert(out@ =~= old(out)@ + decimal_text(n as nat));
    } else {
        push_decimal(out, n / 10);
        out.push((48 + n % 10) as u8 as char);
        assert(out@ =~= old(out)@ + decimal_text(n as nat));
    }
}

/// The text of a number in decimal digits.
pub fn decimal(n: u64) -> (text: String)
    ensures
        text@ == decimal_text(n as nat),
{
    let mut chars: Vec<char> = Vec::new();
    push_decimal(&mut chars, n);
    assert(chars@ =~= decimal_text(n as nat));
    from_chars(chars.as_slice())
}

impl DerivationPath {
    #[verifier::type_invariant]
    closed spec fn well_formed(&self) -> bool {
        self.steps@.len() <= MAX_PATH_LENGTH
    }

    /// The path of the master key itself.
    pub fn master() -> (path: DerivationPath)
        ensures
            path@ == Seq::<StepView>::empty(),
    {
        let path = DerivationPath { steps: Vec::new() };
        assert(path@ =~= Seq::<StepView>::empty());
        path
    }

    /// Reads a path text.
    pub fn parse(text: &str) -> (result: Result<DerivationPath, PathError>)
        ensures
            match (result, spec_parse(text@)) {
                (Ok(got), Ok(want)) => got@ == want,
                (Err(got), Err(want)) => got == want,
                _ => false,
            },
    {
        let chars = to_chars(text);
        if chars.len() == 0 || chars[0] != 'm' {
            return Err(PathError::Malformed);
        }
        let mut steps: Vec<ChildIndex> = Vec::new();
        let mut pos: usize = 1;
        proof {
            assert(steps_view(steps@) + Seq::<StepView>::empty() =~= steps_view(steps@));
        }
        while pos < chars.len()
            invariant
                1 <= pos <= chars.len(),
                chars@ == text@,
                chars@[0] == 'm',
                steps@.len() <= MAX_PATH_LENGTH,
                match (spec_parse_tail(chars@.skip(1), 0), spec_parse_tail(
                    chars@.skip(pos as int),
                    steps@.len(),
                )) {
                    (Ok(all), Ok(rest)) => all == steps_view(steps@) + rest,
                    (Err(all), Err(rest)) => all == rest,
                    _ => false,
                },
            decreases chars.len() - pos,
        {
            let ghost tail = chars@.skip(pos as int);
            assert(tail.len() > 0 && tail[0] == chars@[pos as int]);
            if chars[pos] != '/' {
                return Err(PathError::Malformed);
            }
            if steps.len() >= MAX_PATH_LENGTH {
                return Err(PathError::TooLong);
            }
            let ghost body = tail.skip(1);
            proof {
                lemma_component_end(body);
                assert(body =~= chars@.skip(pos + 1));
            }
            let start = pos + 1;
            let mut end: usize = start;
            while end < chars.len() && chars[end] != '/'
                invariant
                    start <= end <= chars.len(),
                    body == chars@.skip(start as int),
                    component_end(body) == (end - start) + component_end(
                        chars@.skip(end as int),
                    ),
                decreases chars.len() - end,
            {
                proof {
                    assert(chars@.skip(end as int).skip(1) =~= chars@.skip(end + 1));
                }
                end += 1;
            }
            proof {
                assert(component_end(chars@.skip(end as int)) == 0);
                assert(body.take((end - start) as int) =~= chars@.subrange(
                    start as int,
                    end as int,
                ));
                assert(body.skip((end - start) as int) =~= chars@.skip(end as int));
            }
            let piece = vstd::slice::slice_subrange(chars.as_slice(), start, end);
            match parse_component(piece) {
                Err(error) => {
                    return Err(error);
                },
                Ok(step) => {
                    let ghost before = steps@;
                    steps.push(step);
                    proof {
                        let rest = spec_parse_tail(chars@.skip(end as int), steps@.len());
                        assert(steps_view(steps@) =~= steps_view(before) + seq![step@]);
                        if rest is Ok {
                            assert(steps_view(before) + (seq![step@] + rest->Ok_0)
                                =~= steps_view(steps@) + rest->Ok_0);
                        }
                    }
                },
            }
            pos = end;
        }
        proof {
            assert(chars@.skip(pos as int) =~= Seq::<char>::empty());
            assert(steps_view(steps@) + Seq::<StepView>::empty() =~= steps_view(steps@));
        }
        Ok(DerivationPath { steps })
    }

    /// The number of components.
    pub fn len(&self) -> (len: usize)
        ensures
            len == self@.len(),
            len <= MAX_PATH_LENGTH,
    {
        proof {
            use_type_invariant(self);
        }
        self.steps.len()
    }

    /// The component at a position.
    pub fn step(&self, position: usize) -> (step: ChildIndex)
        requires
            position < self@.len(),
        ensures
            step@ == self@[position as int],
    {
        self.steps[position]
    }

    /// This path with one more component at its end, if it has fewer than
    /// 255 components.
    pub fn child(&self, step: ChildIndex) -> (path: Option<DerivationPath>)
        ensures
            path is Some <==> self@.len() < MAX_PATH_LENGTH,
            path matches Some(p) ==> p@ == self@.push(step@),
    {
        proof {
            use_type_invariant(self);
        }
        if self.steps.len() >= MAX_PATH_LENGTH {
            return None;
        }
        let mut steps = slice_to_vec(self.steps.as_slice());
        steps.push(step);
        assert(steps_view(steps@) =~= steps_view(self.steps@).push(step@));
        Some(DerivationPath { steps })
    }

    /// The text of the path, hardened components marked with `'`.
    pub fn to_text(&self) -> (text: String)
        ensures
            text@ == spec_text(self@),
            spec_parse(text@) == Ok::<Seq<StepView>, PathError>(self@),
    {
        proof {
            use_type_invariant(self);
        }
        let mut chars: Vec<char> = Vec::new();
        chars.push('m');
        let mut i: usize = 0;
        while i < self.steps.len()
            invariant
                i <= self.steps@.len(),
                chars@ == seq!['m'] + steps_text(steps_view(self.steps@).take(i as int)),
                forall|j: int|
                    0 <= j < i ==> (#[trigger] steps_view(self.steps@)[j]).index < INDEX_LIMIT,
            decreases self.steps@.len() - i,
        {
            let step = self.steps[i];
            let ghost before = chars@;
            chars.push('/');
            push_decimal(&mut chars, step.index() as u64);
            if step.is_hardened() {
                chars.push('\'');
            }
            proof {
                let all = steps_view(self.steps@);
                assert(all.take(i + 1).drop_last() =~= all.take(i as int));
                assert(all.take(i + 1).last() == step@);
                assert(chars@ =~= before + seq!['/'] + step_text(step@));
                assert(chars@ =~= seq!['m'] + steps_text(all.take(i + 1)));
            }
            i += 1;
        }
        proof {
            let all = steps_view(self.steps@);
            assert(all.take(all.len() as int) =~= all);
            lemma_parse_text(all);
        }
        from_chars(chars.as_slice())
    }
}

impl Clone for DerivationPath {
    fn clone(&self) -> (copy: Self)
        ensures
            copy@ == self@,
    {
        proof {
            use_type_invariant(self);
        }
        DerivationPath { steps: slice_to_vec(self.steps.as_slice()) }
    }
}

} // verus!
