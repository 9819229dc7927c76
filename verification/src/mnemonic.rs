//! The mnemonic codec: entropy to a sentence of 12 or 24 words and back,
//! and from a mnemonic to the seed of a key tree.
//!
//! The bits of the entropy, followed by the first bits of its SHA-256, are
//! cut into groups of eleven; each group is the index of a word. The word
//! list and the stretching of the sentence into a seed come from `bip39`,
//! the random bytes from `rand`.

use crate::bits::{
    explode_u16, explode_u8, implode_u16, implode_u8, lemma_narrow_widen, lemma_narrow_widen_u16,
    lemma_pack_stream, lemma_stream_len, lemma_stream_pack, lemma_widen_narrow_u16, narrow_u16,
    narrow_u8, pack, stream, widen_u16, widen_u8,
};
use crate::bytes::append;
use crate::hash::{sha256, spec_sha256};
use crate::text::{from_chars, small_chars, small_letters, to_chars};
use vstd::prelude::*;
use vstd::slice::{slice_subrange, slice_to_vec};

verus! {

/// Why there is no mnemonic.
#[derive(Clone, Copy, PartialEq, Eq, Debug, Structural)]
pub enum MnemonicError {
    /// The number of words is neither 12 nor 24.
    InvalidWordCount,
    /// The entropy is neither 16 nor 32 bytes long.
    InvalidEntropyLength,
    /// The word at this position, counted from 0, is not in the list.
    InvalidWord { position: usize },
    /// The checksum bits of the last word are not those of the entropy.
    ChecksumMismatch,
    /// The system gave no random bytes.
    EntropyUnavailable,
}

/// The word at an index of the English word list.
pub uninterp spec fn spec_word(index: u16) -> Seq<char>;

/// The index of a word in the English word list, if it is there.
pub uninterp spec fn spec_word_index(word: Seq<char>) -> Option<u16>;

/// The 64-byte seed of the mnemonic of an entropy under a passphrase.
pub uninterp spec fn spec_seed(entropy: Seq<u8>, passphrase: Seq<char>) -> Seq<u8>;

/// A word of small letters `a` to `z`, at least one.
pub open spec fn is_plain_word(word: Seq<char>) -> bool {
    word.len() > 0 && forall|i: int| 0 <= i < word.len() ==> 'a' <= #[trigger] word[i] <= 'z'
}

/// Reads `Language::English.word_list()` at an index. The claims: the word
/// is the named word of the index; it is made of small letters; and looking
/// it up in the list gives the index back.
#[verifier::external_body]
fn word_at(index: u16) -> (word: String)
    requires
        index < 2048,
    ensures
        word@ == spec_word(index),
        is_plain_word(word@),
        spec_word_index(word@) == Some(index),
{
    bip39::Language::English.word_list()[usize::from(index)].to_string()
}

/// Calls `Language::English.find_word`. The claims: the answer is the named
/// index of the word; an index is below 2048 and the word at it is the word
/// looked up.
#[verifier::external_body]
fn find_word(word: &str) -> (index: Option<u16>)
    ensures
        index == spec_word_index(word@),
        index matches Some(i) ==> i < 2048 && spec_word(i) == word@,
{
    bip39::Language::English.find_word(word)
}

/// Calls `Mnemonic::to_seed` on the mnemonic that `Mnemonic::from_entropy`
/// makes. The claims: an entropy of 16 or 32 bytes has a seed; the seed is
/// the named seed of entropy and passphrase, 64 bytes long.
#[verifier::external_body]
fn stretch(entropy: &[u8], passphrase: &str) -> (seed: Option<Vec<u8>>)
    ensures
        (entropy@.len() == 16 || entropy@.len() == 32) ==> seed is Some,
        seed matches Some(s) ==> s@ == spec_seed(entropy@, passphrase@) && s@.len() == 64,
{
    match bip39::Mnemonic::from_entropy(entropy) {
        Ok(mnemonic) => Some(mnemonic.to_seed(passphrase).to_vec()),
        Err(_) => None,
    }
}

/// Calls `OsRng.try_fill_bytes` on a buffer of `count` bytes. The claim:
/// where the system gives bytes, there are `count` of them.
#[verifier::external_body]
pub(crate) fn random_bytes(count: usize) -> (bytes: Option<Vec<u8>>)
    ensures
        bytes matches Some(b) ==> b@.len() == count,
{
    let mut bytes = vec![0u8; count];
    match rand::RngCore::try_fill_bytes(&mut rand::rngs::OsRng, &mut bytes) {
        Ok(()) => Some(bytes),
        Err(_) => None,
    }
}

/// White space as Unicode defines it.
pub open spec fn is_space(c: char) -> bool {
    let v = c as u32;
    (0x09 <= v <= 0x0D) || v == 0x20 || v == 0x85 || v == 0xA0 || v == 0x1680 || (0x2000 <= v
        <= 0x200A) || v == 0x2028 || v == 0x2029 || v == 0x202F || v == 0x205F || v == 0x3000
}

/// Whether a character is white space.
pub fn char_is_space(c: char) -> (yes: bool)
    ensures
        yes == is_space(c),
{
    let v = c as u32;
    (0x09 <= v && v <= 0x0D) || v == 0x20 || v == 0x85 || v == 0xA0 || v == 0x1680 || (0x2000 <= v
        && v <= 0x200A) || v == 0x2028 || v == 0x2029 || v == 0x202F || v == 0x205F || v == 0x3000
}

/// How many characters stand before the first white space.
pub open spec fn word_end(text: Seq<char>) -> nat
    decreases text.len(),
{
    if text.len() == 0 || is_space(text[0]) {
        0
    } else {
        1 + word_end(text.skip(1))
    }
}

proof fn lemma_word_end(text: Seq<char>)
    ensures
        word_end(text) <= text.len(),
        forall|i: int| 0 <= i < word_end(text) ==> !is_space(#[trigger] text[i]),
        word_end(text) < text.len() ==> is_space(text[word_end(text) as int]),
    decreases text.len(),
{
    if text.len() != 0 && !is_space(text[0]) {
        let rest = text.skip(1);
        lemma_word_end(rest);
        assert forall|i: int| 0 <= i < word_end(text) implies !is_space(#[trigger] text[i]) by {
            if i > 0 {
                assert(rest[i - 1] == text[i]);
            }
        }
        if word_end(text) < text.len() {
            assert(rest[word_end(rest) as int] == text[word_end(text) as int]);
        }
    }
}

/// The words of a text: the longest runs of characters that are no white
/// space, in order.
pub open spec fn split_words(text: Seq<char>) -> Seq<Seq<char>>
    decreases text.len(),
    via split_words_decreases
{
    if text.len() == 0 {
        Seq::empty()
    } else if is_space(text[0]) {
        split_words(text.skip(1))
    } else {
        seq![text.take(word_end(text) as int)] + split_words(text.skip(word_end(text) as int))
    }
}

#[via_fn]
proof fn split_words_decreases(text: Seq<char>) {
    if text.len() != 0 && !is_space(text[0]) {
        lemma_word_end(text);
    }
}

/// The words with one space between neighbours.
pub open spec fn join_words(words: Seq<Seq<char>>) -> Seq<char>
    decreases words.len(),
{
    if words.len() == 0 {
        Seq::empty()
    } else if words.len() == 1 {
        words[0]
    } else {
        words[0] + seq![' '] + join_words(words.drop_first())
    }
}

/// The indices of the words, or the position of the first word that is not
/// in the list. Capital letters count as their small letters.
pub open spec fn spec_lookup(words: Seq<Seq<char>>) -> Result<Seq<u16>, nat>
    decreases words.len(),
{
    if words.len() == 0 {
        Ok(Seq::empty())
    } else {
        match spec_lookup(words.drop_last()) {
            Err(position) => Err(position),
            Ok(indices) => match spec_word_index(small_letters(words.last())) {
                None => Err((words.len() - 1) as nat),
                Some(index) => Ok(indices.push(index)),
            },
        }
    }
}

/// The checksum bits of an entropy: one bit of its SHA-256 for every four
/// bytes.
pub open spec fn checksum_bits(entropy: Seq<u8>) -> Seq<bool> {
    stream(widen_u8(spec_sha256(entropy)), 8).take((entropy.len() / 4) as int)
}

/// The bits that the words spell: entropy, then checksum.
pub open spec fn sentence_bits(entropy: Seq<u8>) -> Seq<bool> {
    stream(widen_u8(entropy), 8) + checksum_bits(entropy)
}

/// The word indices of an entropy.
pub open spec fn spec_indices(entropy: Seq<u8>) -> Seq<u16> {
    narrow_u16(pack(sentence_bits(entropy), 11, (entropy.len() * 3 / 4) as nat))
}

/// The words of an entropy.
pub open spec fn spec_words(entropy: Seq<u8>) -> Seq<Seq<char>> {
    Seq::new(spec_indices(entropy).len(), |j: int| spec_word(spec_indices(entropy)[j]))
}

/// The sentence of an entropy.
pub open spec fn spec_phrase(entropy: Seq<u8>) -> Seq<char> {
    join_words(spec_words(entropy))
}

/// The entropy that a sentence spells.
pub open spec fn spec_parse(text: Seq<char>) -> Result<Seq<u8>, MnemonicError> {
    let words = split_words(text);
    if words.len() != 12 && words.len() != 24 {
        Err(MnemonicError::InvalidWordCount)
    } else {
        match spec_lookup(words) {
            Err(position) => Err(MnemonicError::InvalidWord { position: position as usize }),
            Ok(indices) => {
                let bits = stream(widen_u16(indices), 11);
                let len = (words.len() / 3 * 4) as nat;
                let entropy = narrow_u8(pack(bits, 8, len));
                if bits.skip((8 * len) as int) == checksum_bits(entropy) {
                    Ok(entropy)
                } else {
                    Err(MnemonicError::ChecksumMismatch)
                }
            },
        }
    }
}

/// The lengths of entropy that have a mnemonic: 16 and 32 bytes.
pub open spec fn valid_entropy_len(len: nat) -> bool {
    len == 16 || len == 32
}

/// An entropy of 16 or 32 bytes with its words.
#[derive(Debug)]
pub struct Mnemonic {
    entropy: Vec<u8>,
    indices: Vec<u16>,
}

impl View for Mnemonic {
    type V = Seq<u8>;

    closed spec fn view(&self) -> Seq<u8> {
        self.entropy@
    }
}

proof fn lemma_lookup_error_stays(words: Seq<Seq<char>>, count: int)
    requires
        0 <= count <= words.len(),
        spec_lookup(words.take(count)) is Err,
    ensures
        spec_lookup(words) == spec_lookup(words.take(count)),
    decreases words.len() - count,
{
    if count < words.len() {
        assert(words.take(count + 1).drop_last() =~= words.take(count));
        lemma_lookup_error_stays(words, count + 1);
    } else {
        assert(words.take(count) =~= words);
    }
}

proof fn lemma_join_push(words: Seq<Seq<char>>, word: Seq<char>)
    requires
        words.len() > 0,
    ensures
        join_words(words.push(word)) == join_words(words) + seq![' '] + word,
    decreases words.len(),
{
    let all = words.push(word);
    if words.len() == 1 {
        assert(all.drop_first() =~= seq![word]);
        assert(join_words(seq![word]) == word);
    } else {
        lemma_join_push(words.drop_first(), word);
        assert(all.drop_first() =~= words.drop_first().push(word));
        assert(join_words(all) =~= words[0] + seq![' '] + (join_words(words.drop_first()) + seq![
            ' ',
        ] + word));
    }
}

proof fn lemma_word_end_of_word(word: Seq<char>, rest: Seq<char>)
    requires
        is_plain_word(word),
        rest.len() == 0 || is_space(rest[0]),
    ensures
        word_end(word + rest) == word.len(),
    decreases word.len(),
{
    let text = word + rest;
    assert(text[0] == word[0]);
    assert(!is_space(word[0]));
    if word.len() == 1 {
        assert(text.skip(1) =~= rest);
        assert(word_end(rest) == 0);
        assert(word_end(text) == 1 + word_end(text.skip(1)));
    } else {
        let tail = word.drop_first();
        assert(text.skip(1) =~= tail + rest);
        assert(is_plain_word(tail)) by {
            assert forall|i: int| 0 <= i < tail.len() implies 'a' <= #[trigger] tail[i] <= 'z' by {
                assert(tail[i] == word[i + 1]);
            }
        }
        lemma_word_end_of_word(tail, rest);
        assert(word_end(text) == 1 + word_end(text.skip(1)));
    }
}

/// Splitting the sentence of plain words gives the words.
proof fn lemma_split_join(words: Seq<Seq<char>>)
    requires
        forall|j: int| 0 <= j < words.len() ==> is_plain_word(#[trigger] words[j]),
    ensures
        split_words(join_words(words)) == words,
    decreases words.len(),
{
    if words.len() == 0 {
    } else if words.len() == 1 {
        let word = words[0];
        lemma_word_end_of_word(word, Seq::empty());
        assert(word + Seq::<char>::empty() =~= word);
        assert(word.take(word.len() as int) =~= word);
        assert(word.skip(word.len() as int) =~= Seq::<char>::empty());
        assert(split_words(word) =~= seq![word] + split_words(Seq::empty()));
        assert(words =~= seq![word]);
    } else {
        let word = words[0];
        let rest_words = words.drop_first();
        let rest = seq![' '] + join_words(rest_words);
        let text = join_words(words);
        assert(text =~= word + rest);
        lemma_word_end_of_word(word, rest);
        assert(text[0] == word[0]);
        assert(text.take(word.len() as int) =~= word);
        assert(text.skip(word.len() as int) =~= rest);
        assert(rest.skip(1) =~= join_words(rest_words));
        assert forall|j: int| 0 <= j < rest_words.len() implies is_plain_word(
            #[trigger] rest_words[j],
        ) by {
            assert(rest_words[j] == words[j + 1]);
        }
        lemma_split_join(rest_words);
        assert(split_words(rest) == split_words(rest.skip(1)));
        assert(words =~= seq![word] + rest_words);
    }
}

/// A word of small letters is its own small-letter form.
proof fn lemma_plain_word_is_small(word: Seq<char>)
    requires
        is_plain_word(word),
    ensures
        small_letters(word) == word,
{
    assert(small_letters(word) =~= word);
}

proof fn lemma_lookup_same(first: Seq<Seq<char>>, second: Seq<Seq<char>>)
    requires
        first.len() == second.len(),
        forall|j: int|
            0 <= j < first.len() ==> small_letters(#[trigger] first[j]) == small_letters(
                second[j],
            ),
    ensures
        spec_lookup(first) == spec_lookup(second),
    decreases first.len(),
{
    if first.len() > 0 {
        let a = first.drop_last();
        let b = second.drop_last();
        assert forall|j: int| 0 <= j < a.len() implies small_letters(#[trigger] a[j])
            == small_letters(b[j]) by {
            assert(a[j] == first[j] && b[j] == second[j]);
        }
        lemma_lookup_same(a, b);
        assert(small_letters(first[first.len() - 1]) == small_letters(second[first.len() - 1]));
    }
}

/// Two sentences whose words are the same but for capital letters and for
/// the white space between and around them spell the same, or fail alike.
pub proof fn lemma_parse_ignores_case_and_space(first: Seq<char>, second: Seq<char>)
    requires
        split_words(first).len() == split_words(second).len(),
        forall|j: int|
            0 <= j < split_words(first).len() ==> small_letters(#[trigger] split_words(first)[j])
                == small_letters(split_words(second)[j]),
    ensures
        spec_parse(first) == spec_parse(second),
{
    lemma_lookup_same(split_words(first), split_words(second));
}

proof fn lemma_lookup_words(indices: Seq<u16>, words: Seq<Seq<char>>)
    requires
        words.len() == indices.len(),
        forall|j: int|
            0 <= j < words.len() ==> is_plain_word(#[trigger] words[j]) && spec_word_index(
                words[j],
            ) == Some(indices[j]),
    ensures
        spec_lookup(words) == Ok::<Seq<u16>, nat>(indices),
    decreases words.len(),
{
    if words.len() > 0 {
        lemma_lookup_words(indices.drop_last(), words.drop_last());
        assert(indices.drop_last().push(indices.last()) =~= indices);
        assert(is_plain_word(words[words.len() - 1]));
        lemma_plain_word_is_small(words.last());
    } else {
        assert(indices =~= Seq::<u16>::empty());
    }
}

/// The bits of the word indices of an entropy are its sentence bits, and
/// the entropy and the checksum are read back from them.
proof fn lemma_indices_bits(entropy: Seq<u8>)
    requires
        valid_entropy_len(entropy.len()),
        spec_sha256(entropy).len() == 32,
    ensures
        spec_indices(entropy).len() == entropy.len() * 3 / 4,
        forall|j: int|
            0 <= j < spec_indices(entropy).len() ==> #[trigger] spec_indices(entropy)[j] < 2048,
        stream(widen_u16(spec_indices(entropy)), 11) == sentence_bits(entropy),
        sentence_bits(entropy).len() == 8 * entropy.len() + entropy.len() / 4,
        narrow_u8(pack(sentence_bits(entropy), 8, entropy.len())) == entropy,
        sentence_bits(entropy).skip((8 * entropy.len()) as int) == checksum_bits(entropy),
{
    let len = entropy.len();
    let count = (len * 3 / 4) as nat;
    let wide = widen_u8(entropy);
    let bits = sentence_bits(entropy);
    lemma_stream_len(wide, 8);
    lemma_stream_len(widen_u8(spec_sha256(entropy)), 8);
    assert(checksum_bits(entropy).len() == len / 4);
    assert(bits.len() == count * 11);
    let packed = pack(bits, 11, count);
    lemma_stream_pack(bits, 11, count);
    lemma_widen_narrow_u16(packed, 11);
    assert(bits.take((count * 11) as int) =~= bits);
    lemma_narrow_widen(entropy);
    lemma_pack_stream(wide, 8);
    let unpacked = pack(bits, 8, len);
    assert forall|j: int| 0 <= j < len implies unpacked[j] == wide[j] by {
        assert(bits.subrange(j * 8, j * 8 + 8) =~= stream(wide, 8).subrange(j * 8, j * 8 + 8));
        assert(pack(stream(wide, 8), 8, len)[j] == wide[j]);
    }
    assert(unpacked =~= wide);
    assert(bits.skip((8 * len) as int) =~= checksum_bits(entropy));
}

impl Mnemonic {
    #[verifier::type_invariant]
    closed spec fn well_formed(&self) -> bool {
        &&& valid_entropy_len(self.entropy@.len())
        &&& spec_sha256(self.entropy@).len() == 32
        &&& self.indices@ == spec_indices(self.entropy@)
    }

    /// The mnemonic of an entropy of 16 or 32 bytes.
    pub fn from_entropy(entropy: &[u8]) -> (result: Result<Mnemonic, MnemonicError>)
        ensures
            result is Ok <==> valid_entropy_len(entropy@.len()),
            result matches Ok(m) ==> m@ == entropy@,
            result matches Err(e) ==> e == MnemonicError::InvalidEntropyLength,
    {
        let len = entropy.len();
        if len != 16 && len != 32 {
            return Err(MnemonicError::InvalidEntropyLength);
        }
        let mut bits = explode_u8(entropy, 8);
        let digest = sha256(entropy);
        let digest_bits = explode_u8(digest.as_slice(), 8);
        proof {
            lemma_stream_len(widen_u8(entropy@), 8);
            lemma_stream_len(widen_u8(digest@), 8);
        }
        let check = slice_subrange(digest_bits.as_slice(), 0, len / 4);
        assert(check@ =~= checksum_bits(entropy@));
        append(&mut bits, check);
        let indices = implode_u16(bits.as_slice(), 11, len * 3 / 4);
        proof {
            lemma_stream_pack(bits@, 11, (len * 3 / 4) as nat);
            lemma_narrow_widen_u16(indices@);
        }
        Ok(Mnemonic { entropy: slice_to_vec(entropy), indices })
    }

    /// A fresh mnemonic of 12 or 24 words from the system's random bytes.
    pub fn generate(word_count: usize) -> (result: Result<Mnemonic, MnemonicError>)
        ensures
            (word_count != 12 && word_count != 24) <==> result == Err::<Mnemonic, MnemonicError>(
                MnemonicError::InvalidWordCount,
            ),
            result matches Ok(m) ==> m@.len() * 3 == word_count * 4,
            result matches Err(e) ==> e == MnemonicError::InvalidWordCount || e
                == MnemonicError::EntropyUnavailable,
    {
        if word_count != 12 && word_count != 24 {
            return Err(MnemonicError::InvalidWordCount);
        }
        let len = word_count / 3 * 4;
        match random_bytes(len) {
            None => Err(MnemonicError::EntropyUnavailable),
            Some(entropy) => Mnemonic::from_entropy(entropy.as_slice()),
        }
    }

    /// Reads a sentence: the words between white space are looked up in the
    /// list, capital letters counting as small ones, and the checksum is
    /// held against the entropy that they spell.
    pub fn parse(text: &str) -> (result: Result<Mnemonic, MnemonicError>)
        ensures
            match (result, spec_parse(text@)) {
                (Ok(got), Ok(want)) => got@ == want,
                (Err(got), Err(want)) => got == want,
                _ => false,
            },
    {
        let chars = to_chars(text);
        let total = chars.len();
        let mut starts: Vec<usize> = Vec::new();
        let mut ends: Vec<usize> = Vec::new();
        let ghost mut found: Seq<Seq<char>> = Seq::empty();
        let mut pos: usize = 0;
        proof {
            assert(chars@.skip(0) =~= chars@);
            assert(found + split_words(chars@) =~= split_words(chars@));
        }
        while pos < total
            invariant
                pos <= total,
                total == chars@.len(),
                starts@.len() == found.len(),
                ends@.len() == found.len(),
                split_words(chars@) == found + split_words(chars@.skip(pos as int)),
                forall|j: int|
                    0 <= j < found.len() ==> (#[trigger] starts@[j]) <= ends@[j] && ends@[j]
                        <= total,
                forall|j: int|
                    0 <= j < found.len() ==> (#[trigger] found[j]) == chars@.subrange(
                        starts@[j] as int,
                        ends@[j] as int,
                    ),
            decreases total - pos,
        {
            let ghost tail = chars@.skip(pos as int);
            assert(tail[0] == chars@[pos as int]);
            if char_is_space(chars[pos]) {
                proof {
                    assert(tail.skip(1) =~= chars@.skip(pos + 1));
                }
                pos += 1;
            } else {
                let mut end: usize = pos;
                proof {
                    lemma_word_end(tail);
                    assert(chars@.skip(end as int) =~= tail);
                }
                while end < total && !char_is_space(chars[end])
                    invariant
                        pos <= end <= total,
                        total == chars@.len(),
                        tail == chars@.skip(pos as int),
                        word_end(tail) == (end - pos) + word_end(chars@.skip(end as int)),
                    decreases total - end,
                {
                    proof {
                        assert(chars@.skip(end as int)[0] == chars@[end as int]);
                        assert(chars@.skip(end as int).skip(1) =~= chars@.skip(end + 1));
                    }
                    end += 1;
                }
                proof {
                    if end < total {
                        assert(chars@.skip(end as int)[0] == chars@[end as int]);
                    }
                    assert(word_end(chars@.skip(end as int)) == 0);
                    let word = tail.take((end - pos) as int);
                    assert(word =~= chars@.subrange(pos as int, end as int));
                    assert(tail.skip((end - pos) as int) =~= chars@.skip(end as int));
                    assert(found + (seq![word] + split_words(chars@.skip(end as int)))
                        =~= found.push(word) + split_words(chars@.skip(end as int)));
                    found = found.push(word);
                }
                let ghost old_starts = starts@;
                let ghost old_ends = ends@;
                starts.push(pos);
                ends.push(end);
                proof {
                    assert forall|j: int| 0 <= j < found.len() implies (#[trigger] found[j])
                        == chars@.subrange(starts@[j] as int, ends@[j] as int) by {
                        if j < found.len() - 1 {
                            assert(found[j] == found.drop_last()[j]);
                            assert(starts@[j] == old_starts[j]);
                            assert(ends@[j] == old_ends[j]);
                        }
                    }
                    assert forall|j: int| 0 <= j < found.len() implies (#[trigger] starts@[j])
                        <= ends@[j] && ends@[j] <= total by {
                        if j < found.len() - 1 {
                            assert(starts@[j] == old_starts[j]);
                            assert(ends@[j] == old_ends[j]);
                        }
                    }
                }
                pos = end;
            }
        }
        proof {
            assert(chars@.skip(pos as int) =~= Seq::<char>::empty());
            assert(found + Seq::<Seq<char>>::empty() =~= found);
        }
        let count = starts.len();
        if count != 12 && count != 24 {
            return Err(MnemonicError::InvalidWordCount);
        }
        let mut indices: Vec<u16> = Vec::new();
        let mut k: usize = 0;
        while k < count
            invariant
                k <= count,
                count == found.len(),
                count == 12 || count == 24,
                chars@ == text@,
                split_words(chars@) == found,
                starts@.len() == count,
                ends@.len() == count,
                total == chars@.len(),
                indices@.len() == k,
                spec_lookup(found.take(k as int)) == Ok::<Seq<u16>, nat>(indices@),
                forall|j: int| 0 <= j < k ==> #[trigger] indices@[j] < 2048,
                forall|j: int|
                    0 <= j < found.len() ==> (#[trigger] starts@[j]) <= ends@[j] && ends@[j]
                        <= total,
                forall|j: int|
                    0 <= j < found.len() ==> (#[trigger] found[j]) == chars@.subrange(
                        starts@[j] as int,
                        ends@[j] as int,
                    ),
            decreases count - k,
        {
            assert(found[k as int] == chars@.subrange(starts@[k as int] as int, ends@[k as int] as int));
            let piece = slice_subrange(chars.as_slice(), starts[k], ends[k]);
            let small = small_chars(piece);
            let word = from_chars(small.as_slice());
            proof {
                assert(found.take(k + 1).drop_last() =~= found.take(k as int));
                assert(found.take(k + 1).last() == found[k as int]);
            }
            match find_word(word.as_str()) {
                None => {
                    proof {
                        lemma_lookup_error_stays(found, k + 1);
                    }
                    return Err(MnemonicError::InvalidWord { position: k });
                },
                Some(index) => {
                    indices.push(index);
                },
            }
            k += 1;
        }
        proof {
            assert(found.take(count as int) =~= found);
        }
        let bits = explode_u16(indices.as_slice(), 11);
        let len = count / 3 * 4;
        proof {
            lemma_stream_len(widen_u16(indices@), 11);
        }
        let entropy = implode_u8(bits.as_slice(), 8, len);
        proof {
            lemma_narrow_widen(entropy@);
        }
        let digest = sha256(entropy.as_slice());
        let digest_bits = explode_u8(digest.as_slice(), 8);
        proof {
            lemma_stream_len(widen_u8(digest@), 8);
        }
        let ghost want = checksum_bits(entropy@);
        let ghost got = bits@.skip((8 * len) as int);
        let check_len = len / 4;
        let mut c: usize = 0;
        assert(spec_parse(text@) == (if got == want {
            Ok::<Seq<u8>, MnemonicError>(entropy@)
        } else {
            Err::<Seq<u8>, MnemonicError>(MnemonicError::ChecksumMismatch)
        }));
        while c < check_len
            invariant
                c <= check_len,
                spec_parse(text@) == (if got == want {
                    Ok::<Seq<u8>, MnemonicError>(entropy@)
                } else {
                    Err::<Seq<u8>, MnemonicError>(MnemonicError::ChecksumMismatch)
                }),
                check_len == len / 4,
                len == 16 || len == 32,
                bits@.len() == 8 * len + check_len,
                digest_bits@.len() == 256,
                want == digest_bits@.take(check_len as int),
                got == bits@.skip((8 * len) as int),
                forall|i: int| 0 <= i < c ==> got[i] == want[i],
            decreases check_len - c,
        {
            if bits[8 * len + c] != digest_bits[c] {
                assert(got[c as int] != want[c as int]);
                return Err(MnemonicError::ChecksumMismatch);
            }
            c += 1;
        }
        assert(got =~= want);
        match Mnemonic::from_entropy(entropy.as_slice()) {
            Ok(mnemonic) => Ok(mnemonic),
            Err(_) => {
                assert(false);
                Err(MnemonicError::InvalidEntropyLength)
            },
        }
    }

    /// The entropy.
    pub fn entropy(&self) -> (entropy: &[u8])
        ensures
            entropy@ == self@,
            valid_entropy_len(entropy@.len()),
    {
        proof {
            use_type_invariant(self);
        }
        self.entropy.as_slice()
    }

    /// The number of words: 12 or 24.
    pub fn word_count(&self) -> (count: usize)
        ensures
            count == self@.len() * 3 / 4,
            count == 12 || count == 24,
    {
        proof {
            use_type_invariant(self);
        }
        self.entropy.len() * 3 / 4
    }

    /// The indices of the words in the list.
    pub fn word_indices(&self) -> (indices: &[u16])
        ensures
            indices@ == spec_indices(self@),
    {
        proof {
            use_type_invariant(self);
        }
        self.indices.as_slice()
    }

    /// The sentence: the words with one space between neighbours. Reading
    /// the sentence gives back the entropy.
    pub fn words_as_text(&self) -> (text: String)
        ensures
            text@ == spec_phrase(self@),
            spec_parse(text@) == Ok::<Seq<u8>, MnemonicError>(self@),
    {
        proof {
            use_type_invariant(self);
            lemma_indices_bits(self.entropy@);
        }
        let ghost words = spec_words(self.entropy@);
        let mut chars: Vec<char> = Vec::new();
        let mut j: usize = 0;
        while j < self.indices.len()
            invariant
                j <= self.indices@.len(),
                self.indices@ == spec_indices(self.entropy@),
                words == spec_words(self.entropy@),
                words.len() == self.indices@.len(),
                forall|i: int| 0 <= i < self.indices@.len() ==> #[trigger] self.indices@[i] < 2048,
                chars@ == join_words(words.take(j as int)),
                forall|i: int|
                    0 <= i < j ==> is_plain_word(#[trigger] words[i]) && spec_word_index(words[i])
                        == Some(self.indices@[i]),
            decreases self.indices@.len() - j,
        {
            let word = word_at(self.indices[j]);
            let letters = to_chars(word.as_str());
            let ghost before = chars@;
            if j > 0 {
                chars.push(' ');
            }
            append(&mut chars, letters.as_slice());
            proof {
                assert(words[j as int] == letters@);
                assert(words.take(j + 1) =~= words.take(j as int).push(words[j as int]));
                if j > 0 {
                    lemma_join_push(words.take(j as int), words[j as int]);
                    assert(chars@ =~= before + seq![' '] + letters@);
                } else {
                    assert(words.take(1) =~= seq![words[0]]);
                    assert(chars@ =~= letters@);
                    assert(join_words(seq![words[0]]) == words[0]);
                }
            }
            j += 1;
        }
        proof {
            assert(words.take(words.len() as int) =~= words);
            lemma_split_join(words);
            lemma_lookup_words(self.indices@, words);
        }
        from_chars(chars.as_slice())
    }

    /// The words, in order.
    pub fn words(&self) -> (words: Vec<String>)
        ensures
            words@.len() == spec_words(self@).len(),
            forall|j: int| 0 <= j < words@.len() ==> (#[trigger] words@[j])@ == spec_words(self@)[j],
    {
        proof {
            use_type_invariant(self);
            lemma_indices_bits(self.entropy@);
        }
        let mut words: Vec<String> = Vec::new();
        let mut j: usize = 0;
        while j < self.indices.len()
            invariant
                j <= self.indices@.len(),
                self.indices@ == spec_indices(self.entropy@),
                forall|i: int| 0 <= i < self.indices@.len() ==> #[trigger] self.indices@[i] < 2048,
                words@.len() == j,
                forall|i: int|
                    0 <= i < j ==> (#[trigger] words@[i])@ == spec_words(self.entropy@)[i],
            decreases self.indices@.len() - j,
        {
            words.push(word_at(self.indices[j]));
            j += 1;
        }
        words
    }

    /// The 64-byte seed of this mnemonic under a passphrase.
    pub fn to_seed(&self, passphrase: &str) -> (seed: Vec<u8>)
        ensures
            seed@ == spec_seed(self@, passphrase@),
            seed@.len() == 64,
    {
        proof {
            use_type_invariant(self);
        }
        match stretch(self.entropy.as_slice(), passphrase) {
            Some(seed) => seed,
            None => {
                assert(false);
                Vec::new()
            },
        }
    }
}

impl Clone for Mnemonic {
    fn clone(&self) -> (copy: Self)
        ensures
            copy@ == self@,
    {
        proof {
            use_type_invariant(self);
        }
        Mnemonic {
            entropy: slice_to_vec(self.entropy.as_slice()),
            indices: slice_to_vec(self.indices.as_slice()),
        }
    }
}

} // verus!
