//! Ownership tags of input slots, and reading them from a comma-separated list.

use vstd::prelude::*;
use vstd::string::StrSliceExecFns;

verus! {

/// Who owns an input slot.
#[derive(Clone, Copy, Debug, PartialEq, Eq, Structural)]
pub enum InputTag {
    /// The real value is held by this party alone.
    Party(u64),
    /// The value is known to every party.
    Public,
    /// The value is already split into shares.
    Shared,
}

/// Why a list of ownership tags could not be read.
#[derive(Clone, Copy, Debug, PartialEq, Eq, Structural)]
pub enum TagError {
    /// The token at this position (counted from zero) is not a tag.
    InvalidToken(usize),
}

/// The comma-separated pieces of `s`, empty pieces included; never an empty list.
pub open spec fn split_commas(s: Seq<char>) -> Seq<Seq<char>>
    decreases s.len(),
{
    if s.len() == 0 {
        seq![Seq::empty()]
    } else {
        let init = split_commas(s.drop_last());
        if s.last() == ',' {
            init.push(Seq::empty())
        } else {
            init.update(init.len() - 1, init.last().push(s.last()))
        }
    }
}

/// The tag that a single token names, if any.
pub open spec fn token_tag(t: Seq<char>) -> Option<InputTag> {
    if t == seq!['0'] {
        Some(InputTag::Party(0))
    } else if t == seq!['1'] {
        Some(InputTag::Party(1))
    } else if t == seq!['2'] {
        Some(InputTag::Party(2))
    } else if t == seq!['p', 'u', 'b', 'l', 'i', 'c'] {
        Some(InputTag::Public)
    } else if t == seq!['s', 'e', 'c', 'r', 'e', 't', '-', 's', 'h', 'a', 'r', 'e', 'd'] {
        Some(InputTag::Shared)
    } else {
        None
    }
}

/// Every token of `s` names a tag.
pub open spec fn all_tokens_valid(s: Seq<char>) -> bool {
    forall|j: int| 0 <= j < split_commas(s).len() ==> (#[trigger] token_tag(split_commas(s)[j])) is Some
}

/// The tags that the tokens of `s` name, in order.
pub open spec fn tags_of(s: Seq<char>) -> Seq<InputTag> {
    split_commas(s).map_values(|t: Seq<char>| token_tag(t)->Some_0)
}

proof fn lemma_split_nonempty(s: Seq<char>)
    ensures
        split_commas(s).len() >= 1,
    decreases s.len(),
{
    if s.len() > 0 {
        lemma_split_nonempty(s.drop_last());
    }
}

proof fn lemma_split_stable(s: Seq<char>, a: int, b: int)
    requires
        0 <= a <= b <= s.len(),
    ensures
        split_commas(s.take(b)).len() >= split_commas(s.take(a)).len(),
        forall|j: int|
            0 <= j < split_commas(s.take(a)).len() - 1 ==> #[trigger] split_commas(s.take(b))[j]
                == split_commas(s.take(a))[j],
    decreases b - a,
{
    if a < b {
        lemma_split_stable(s, a, b - 1);
        assert(s.take(b).drop_last() =~= s.take(b - 1));
        lemma_split_nonempty(s.take(b - 1));
    }
}

fn same_chars(t: &Vec<char>, w: &Vec<char>) -> (r: bool)
    ensures
        r == (t@ == w@),
{
    if t.len() != w.len() {
        return false;
    }
    let mut i: usize = 0;
    while i < t.len()
        invariant
            t.len() == w.len(),
            0 <= i <= t.len(),
            forall|j: int| 0 <= j < i ==> t@[j] == w@[j],
        decreases t.len() - i,
    {
        if t[i] != w[i] {
            return false;
        }
        i = i + 1;
    }
    assert(t@ =~= w@);
    true
}

/// Reads one token as a tag.
pub fn tag_of_token(t: &Vec<char>) -> (r: Option<InputTag>)
    ensures
        r == token_tag(t@),
{
    let zero = vec!['0'];
    let one = vec!['1'];
    let two = vec!['2'];
    let public = vec!['p', 'u', 'b', 'l', 'i', 'c'];
    let shared = vec!['s', 'e', 'c', 'r', 'e', 't', '-', 's', 'h', 'a', 'r', 'e', 'd'];
    assert(zero@ =~= seq!['0']);
    assert(one@ =~= seq!['1']);
    assert(two@ =~= seq!['2']);
    assert(public@ =~= seq!['p', 'u', 'b', 'l', 'i', 'c']);
    assert(shared@ =~= seq!['s', 'e', 'c', 'r', 'e', 't', '-', 's', 'h', 'a', 'r', 'e', 'd']);
    if same_chars(t, &zero) {
        Some(InputTag::Party(0))
    } else if same_chars(t, &one) {
        Some(InputTag::Party(1))
    } else if same_chars(t, &two) {
        Some(InputTag::Party(2))
    } else if same_chars(t, &public) {
        Some(InputTag::Public)
    } else if same_chars(t, &shared) {
        Some(InputTag::Shared)
    } else {
        None
    }
}

/// Splits `s` at each comma and reads every piece as a tag: a party id
/// (`0`, `1`, `2`), `public` or `secret-shared`.
pub fn get_tokens(s: &str) -> (r: Result<Vec<InputTag>, TagError>)
    ensures
        r is Ok <==> all_tokens_valid(s@),
        r matches Ok(v) ==> v@ == tags_of(s@),
        r matches Err(TagError::InvalidToken(k)) ==> {
            &&& k < split_commas(s@).len()
            &&& token_tag(split_commas(s@)[k as int]) is None
            &&& forall|j: int| 0 <= j < k ==> (#[trigger] token_tag(split_commas(s@)[j])) is Some
        },
{
    let n = s.unicode_len();
    let mut tags: Vec<InputTag> = Vec::new();
    let mut cur: Vec<char> = Vec::new();
    let mut i: usize = 0;
    while i < n
        invariant
            n == s@.len(),
            0 <= i <= n,
            split_commas(s@.take(i as int)).len() == tags.len() + 1,
            split_commas(s@.take(i as int)).last() == cur@,
            forall|j: int|
                0 <= j < tags.len() ==> token_tag(#[trigger] split_commas(s@.take(i as int))[j])
                    == Some(tags@[j]),
        decreases n - i,
    {
        let c = s.get_char(i);
        proof {
            assert(s@.take(i + 1).drop_last() =~= s@.take(i as int));
            lemma_split_nonempty(s@.take(i as int));
        }
        if c == ',' {
            match tag_of_token(&cur) {
                Some(t) => {
                    tags.push(t);
                },
                None => {
                    proof {
                        lemma_split_stable(s@, i + 1, n as int);
                        assert(s@.take(n as int) =~= s@);
                    }
                    return Err(TagError::InvalidToken(tags.len()));
                },
            }
            cur = Vec::new();
        } else {
            cur.push(c);
        }
        i = i + 1;
    }
    assert(s@.take(n as int) =~= s@);
    match tag_of_token(&cur) {
        Some(t) => {
            tags.push(t);
            assert(tags@ =~= tags_of(s@));
            Ok(tags)
        },
        None => Err(TagError::InvalidToken(tags.len())),
    }
}

/// Reads the comma-separated ownership tags of the inputs.
pub fn parse_input_parties(s: String) -> (r: Result<Vec<InputTag>, TagError>)
    ensures
        r is Ok <==> all_tokens_valid(s@),
        r matches Ok(v) ==> v@ == tags_of(s@),
        r matches Err(TagError::InvalidToken(k)) ==> {
            &&& k < split_commas(s@).len()
            &&& token_tag(split_commas(s@)[k as int]) is None
            &&& forall|j: int| 0 <= j < k ==> (#[trigger] token_tag(split_commas(s@)[j])) is Some
        },
{
    get_tokens(s.as_str())
}

} // verus!
