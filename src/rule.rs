//! The rule engine: normalization, bilingual tokenization, translation,
//! stop-word filtering and rendering, with no network involved.
use vstd::prelude::*;
use crate::defaults::{
    builtin_mappings, default_stop_words, load_default_chinese_to_english_map,
    load_default_stop_words,
};
use crate::error::Error;
use crate::style::{ascii_upper, camel, capitalized, convert_to_style, pascal, render, NamingStyle};
use crate::text::{
    char_vec, contains_char, contains_cjk, has_cjk, is_chinese_char, is_cjk, join, lower_of,
    lowercase, pieces, push_char, split_on, split_whitespace, views, words,
};
use crate::vocabulary::{list_contains, MappingConfig, WordMap};
use jieba_rs::Jieba;
use rust_stemmers::{Algorithm, Stemmer};

verus! {

#[verifier::external_type_specification]
#[verifier::external_body]
pub struct ExJieba(Jieba);

#[verifier::external_type_specification]
#[verifier::external_body]
pub struct ExStemmer(Stemmer);

/// The segmentation of `s` by jieba's `Jieba::cut`, without the HMM, over
/// the dictionary that `Jieba::new` loads.
pub uninterp spec fn segments_of(s: Seq<char>) -> Seq<Seq<char>>;

/// The stem of `w` by the English Snowball stemmer of rust-stemmers.
pub uninterp spec fn english_stem_of(w: Seq<char>) -> Seq<char>;

/// Whether normalization keeps `c`: it is a letter, a number, a Han
/// ideograph or white space by the Unicode tables of the regex crate.
pub uninterp spec fn kept_by_normalization(c: char) -> bool;

/// The pattern of the characters that normalization removes.
pub const STRIPPED_CHARS: &'static str = r"[^\p{L}\p{N}\p{Han}\s]";

/// Relies on jieba's `Jieba::new`: a segmenter over the bundled dictionary.
#[verifier::external_body]
fn new_segmenter() -> Jieba {
    Jieba::new()
}

/// Relies on jieba's `Jieba::cut` with the HMM off, on a segmenter made by
/// `new_segmenter` (the only kind this library makes): the words depend on
/// the text alone.
#[verifier::external_body]
fn segment(segmenter: &Jieba, text: &str) -> (r: Vec<String>)
    ensures
        views(r@) == segments_of(text@),
{
    segmenter.cut(text, false).into_iter().map(|t| t.word.to_string()).collect()
}

/// Relies on rust-stemmers' `Stemmer::create` for English.
#[verifier::external_body]
fn new_stemmer() -> Stemmer {
    Stemmer::create(Algorithm::English)
}

/// Relies on rust-stemmers' `Stemmer::stem`, on a stemmer made by
/// `new_stemmer` (the only kind this library makes): the stem depends on
/// the word alone.
#[verifier::external_body]
fn stem(stemmer: &Stemmer, word: &str) -> (r: String)
    ensures
        r@ == english_stem_of(word@),
{
    stemmer.stem(word).into_owned()
}

/// Relies on regex's `Regex::new`, which compiles the pattern, a negated
/// class of one character, and `Regex::replace_all`, which replaces each
/// match by nothing: every character of the class is removed.
#[verifier::external_body]
fn remove_matches(pattern: &str, text: &str) -> (r: String)
    requires
        pattern@ == STRIPPED_CHARS@,
    ensures
        r@ == text@.filter(|c: char| kept_by_normalization(c)),
{
    regex::Regex::new(pattern).unwrap().replace_all(text, "").into_owned()
}

/// The vocabulary a rule engine consults: translations and stop words.
pub struct Vocabulary {
    pub mappings: Map<Seq<char>, Seq<char>>,
    pub stop_words: Set<Seq<char>>,
}

/// The text after normalization: symbols removed, then lower-cased.
pub open spec fn normalized(text: Seq<char>) -> Seq<char> {
    lower_of(text.filter(|c: char| kept_by_normalization(c)))
}

/// The translation of one character of an untranslated segment: its entry
/// where it is an ideograph with one, else the character itself.
pub open spec fn char_translation(v: Vocabulary, c: char) -> Seq<char> {
    if is_cjk(c) && v.mappings.contains_key(seq![c]) {
        v.mappings[seq![c]]
    } else {
        seq![c]
    }
}

/// Character-by-character translation, concatenated.
pub open spec fn translate_chars(v: Vocabulary, w: Seq<char>) -> Seq<char>
    decreases w.len(),
{
    if w.len() == 0 {
        Seq::empty()
    } else {
        translate_chars(v, w.drop_last()) + char_translation(v, w.last())
    }
}

/// The token a segment of Chinese text becomes: its whole-word
/// translation, or else the translation of each of its characters.
pub open spec fn translate_piece(v: Vocabulary, w: Seq<char>) -> Seq<char> {
    if v.mappings.contains_key(w) {
        v.mappings[w]
    } else {
        translate_chars(v, w)
    }
}

/// A lower-case ASCII letter.
pub open spec fn is_ascii_lower(c: char) -> bool {
    'a' <= c && c <= 'z'
}

/// An upper-case ASCII letter.
pub open spec fn is_ascii_upper(c: char) -> bool {
    'A' <= c && c <= 'Z'
}

/// `s` with a space between each lower-case ASCII letter and an upper-case
/// ASCII letter that follows it.
pub open spec fn camel_spaced(s: Seq<char>) -> Seq<char>
    decreases s.len(),
{
    if s.len() == 0 {
        s
    } else if s.len() >= 2 && is_ascii_lower(s[s.len() - 2]) && is_ascii_upper(s.last()) {
        camel_spaced(s.drop_last()).push(' ').push(s.last())
    } else {
        camel_spaced(s.drop_last()).push(s.last())
    }
}

/// The number of bytes of `c` in UTF-8.
pub open spec fn char_width(c: char) -> nat {
    if (c as u32) < 0x80 {
        1
    } else if (c as u32) < 0x800 {
        2
    } else if (c as u32) < 0x10000 {
        3
    } else {
        4
    }
}

/// The number of bytes of `w` in UTF-8.
pub open spec fn utf8_len(w: Seq<char>) -> nat
    decreases w.len(),
{
    if w.len() == 0 {
        0
    } else {
        utf8_len(w.drop_last()) + char_width(w.last())
    }
}

/// Whether `w` takes at most six bytes in UTF-8.
pub fn at_most_six_bytes(w: &str) -> (r: bool)
    ensures
        r == (utf8_len(w@) <= 6),
{
    let mut total: usize = 0;
    for c in it: w.chars()
        invariant
            it.seq() == w@,
            total == if utf8_len(w@.subrange(0, it.index() as int)) > 6 {
                7
            } else {
                utf8_len(w@.subrange(0, it.index() as int))
            },
    {
        let ghost i = it.index() as int;
        proof {
            assert(w@.subrange(0, i + 1).drop_last() == w@.subrange(0, i));
            assert(w@.subrange(0, i + 1).last() == c);
        }
        let width: usize = if (c as u32) < 0x80 {
            1
        } else if (c as u32) < 0x800 {
            2
        } else if (c as u32) < 0x10000 {
            3
        } else {
            4
        };
        if total + width > 6 {
            total = 7;
        } else {
            total = total + width;
        }
    }
    proof {
        assert(w@.subrange(0, w@.len() as int) == w@);
    }
    total <= 6
}

/// A word of at most six bytes in UTF-8 is stemmed; a longer one is kept.
pub open spec fn stem_short(w: Seq<char>) -> Seq<char> {
    if utf8_len(w) <= 6 {
        english_stem_of(w)
    } else {
        w
    }
}

/// The tokens of a word without ideographs and hyphens: split at camelCase
/// boundaries, lower-cased, short ones stemmed.
pub open spec fn camel_tokens(part: Seq<char>) -> Seq<Seq<char>> {
    words(lower_of(camel_spaced(part))).map_values(|w: Seq<char>| stem_short(w))
}

/// The tokens of one white-space-separated part of the text.
pub open spec fn part_tokens(v: Vocabulary, part: Seq<char>) -> Seq<Seq<char>> {
    if has_cjk(part) {
        segments_of(part).map_values(|w: Seq<char>| translate_piece(v, w))
    } else if part.contains('-') {
        pieces(part, '-')
    } else {
        camel_tokens(part)
    }
}

/// The sequences of `ss`, one after the other.
pub open spec fn concat_all(ss: Seq<Seq<Seq<char>>>) -> Seq<Seq<char>>
    decreases ss.len(),
{
    if ss.len() == 0 {
        Seq::empty()
    } else {
        concat_all(ss.drop_last()) + ss.last()
    }
}

/// The tokens of a normalized text, in order of appearance.
pub open spec fn tokens_of(v: Vocabulary, text: Seq<char>) -> Seq<Seq<char>> {
    concat_all(words(text).map_values(|p: Seq<char>| part_tokens(v, p)))
}

/// A token stays unless it is a stop word without an ideograph.
pub open spec fn keeps(v: Vocabulary, t: Seq<char>) -> bool {
    has_cjk(t) || !v.stop_words.contains(t)
}

/// The test of `keeps`, as a predicate to filter by.
pub open spec fn keeper(v: Vocabulary) -> spec_fn(Seq<char>) -> bool {
    |t: Seq<char>| keeps(v, t)
}

/// The first token that holds an ideograph.
pub open spec fn first_cjk(ts: Seq<Seq<char>>) -> Option<Seq<char>>
    decreases ts.len(),
{
    if ts.len() == 0 {
        None
    } else {
        match first_cjk(ts.drop_last()) {
            Some(t) => Some(t),
            None => if has_cjk(ts.last()) {
                Some(ts.last())
            } else {
                None
            },
        }
    }
}

/// The tokens left after stop words are dropped; where none is left but
/// one held an ideograph, the first such token.
pub open spec fn filter_stop(v: Vocabulary, ts: Seq<Seq<char>>) -> Seq<Seq<char>> {
    let kept = ts.filter(keeper(v));
    if kept.len() == 0 {
        match first_cjk(ts) {
            Some(t) => seq![t],
            None => kept,
        }
    } else {
        kept
    }
}

/// The tokens the rule engine renders for a description.
pub open spec fn rule_tokens(v: Vocabulary, description: Seq<char>) -> Seq<Seq<char>> {
    filter_stop(v, tokens_of(v, normalized(description)))
}

/// The identifier the rule engine makes, or `None` where no token is left.
pub open spec fn rule_output(v: Vocabulary, description: Seq<char>, style: NamingStyle) -> Option<
    Seq<char>,
> {
    let ts = rule_tokens(v, description);
    if ts.len() == 0 {
        None
    } else {
        Some(render(ts, style))
    }
}

/// The built-in vocabulary.
pub open spec fn builtin_vocabulary() -> Vocabulary {
    Vocabulary { mappings: builtin_mappings(), stop_words: default_stop_words().to_set() }
}

/// The vocabulary of a document over the built-in one: the document's
/// entries are looked up first, and its stop words join the built-in ones.
pub open spec fn vocabulary_with(c: MappingConfig) -> Vocabulary {
    Vocabulary {
        mappings: builtin_mappings().union_prefer_right(c.mappings@),
        stop_words: default_stop_words().to_set().union(views(c.stop_words@).to_set()),
    }
}

/// The deterministic generator: it turns a description into one identifier
/// by its vocabulary alone.
pub struct RuleGenerator {
    chinese_tokenizer: Jieba,
    english_stemmer: Stemmer,
    stop_words: Vec<String>,
    chinese_to_english: WordMap,
    mapping_config: Option<MappingConfig>,
}

impl View for RuleGenerator {
    type V = Vocabulary;

    closed spec fn view(&self) -> Vocabulary {
        match self.mapping_config {
            Some(c) => Vocabulary {
                mappings: self.chinese_to_english@.union_prefer_right(c.mappings@),
                stop_words: views(self.stop_words@).to_set().union(views(c.stop_words@).to_set()),
            },
            None => Vocabulary {
                mappings: self.chinese_to_english@,
                stop_words: views(self.stop_words@).to_set(),
            },
        }
    }
}

impl RuleGenerator {
    /// A generator over the built-in vocabulary.
    pub fn new() -> (r: RuleGenerator)
        ensures
            r@ == builtin_vocabulary(),
    {
        Self::new_with_config(None)
    }

    /// A generator over the built-in vocabulary, with the entries and stop
    /// words of `mapping_config`, where one is given, taking precedence.
    pub fn new_with_config(mapping_config: Option<MappingConfig>) -> (r: RuleGenerator)
        ensures
            mapping_config is None ==> r@ == builtin_vocabulary(),
            mapping_config matches Some(c) ==> r@ == vocabulary_with(c),
    {
        let r = RuleGenerator {
            chinese_tokenizer: new_segmenter(),
            english_stemmer: new_stemmer(),
            stop_words: load_default_stop_words(),
            chinese_to_english: load_default_chinese_to_english_map(),
            mapping_config,
        };
        r
    }

    /// The translation of `word`: the document's entry first, then the
    /// built-in one.
    pub fn translate(&self, word: &str) -> (r: Option<&String>)
        ensures
            r is Some <==> self@.mappings.contains_key(word@),
            r matches Some(t) ==> t@ == self@.mappings[word@],
    {
        if let Some(config) = &self.mapping_config {
            if let Some(t) = config.get_mapping(word) {
                return Some(t);
            }
        }
        self.chinese_to_english.get(word)
    }

    /// Whether `word` is a stop word of the document or a built-in one.
    pub fn is_stop_word(&self, word: &str) -> (r: bool)
        ensures
            r == self@.stop_words.contains(word@),
    {
        let in_config = match &self.mapping_config {
            Some(config) => config.is_stop_word(word),
            None => false,
        };
        in_config || list_contains(&self.stop_words, word)
    }

    /// Removes symbols (what is not a letter, a digit, an ideograph or
    /// white space), then lower-cases.
    pub fn preprocess_text(&self, text: &str) -> (r: String)
        ensures
            r@ == normalized(text@),
    {
        let cleaned = remove_matches(STRIPPED_CHARS, text);
        lowercase(cleaned.as_str())
    }

    /// The token that a segment of Chinese text becomes.
    pub fn translate_segment(&self, piece: &str) -> (r: String)
        ensures
            r@ == translate_piece(self@, piece@),
    {
        if let Some(t) = self.translate(piece) {
            return t.clone();
        }
        let mut out = String::new();
        for c in it: piece.chars()
            invariant
                it.seq() == piece@,
                out@ == translate_chars(self@, piece@.subrange(0, it.index() as int)),
        {
            let ghost i = it.index() as int;
            proof {
                assert(piece@.subrange(0, i + 1).drop_last() == piece@.subrange(0, i));
                assert(piece@.subrange(0, i + 1).last() == c);
            }
            if is_chinese_char(c) {
                let mut key = String::new();
                push_char(&mut key, c);
                assert(key@ == seq![c]);
                match self.translate(key.as_str()) {
                    Some(t) => out.append(t.as_str()),
                    None => push_char(&mut out, c),
                }
            } else {
                push_char(&mut out, c);
            }
        }
        proof {
            assert(piece@.subrange(0, piece@.len() as int) == piece@);
        }
        out
    }

    /// Splits a word at each lower-case ASCII letter followed by an
    /// upper-case one, lower-cases it, and stems the parts of at most six
    /// bytes.
    pub fn split_camel_case(&self, text: &str) -> (r: Vec<String>)
        ensures
            views(r@) == camel_tokens(text@),
    {
        let spaced = space_camel_boundaries(text);
        let lowered = lowercase(spaced.as_str());
        let parts = split_whitespace(lowered.as_str());
        let mut result: Vec<String> = Vec::new();
        let n = parts.len();
        let ghost ws = words(lower_of(camel_spaced(text@)));
        for i in 0..n
            invariant
                n == parts@.len(),
                views(parts@) == ws,
                views(result@) == ws.subrange(0, i as int).map_values(
                    |w: Seq<char>| stem_short(w),
                ),
        {
            let ghost before = result@;
            let part = parts[i].as_str();
            assert(part@ == ws[i as int]);
            if at_most_six_bytes(part) {
                result.push(stem(&self.english_stemmer, part));
            } else {
                result.push(part.to_string());
            }
            assert(views(result@) =~= views(before).push(stem_short(ws[i as int])));
            assert(views(result@) =~= ws.subrange(0, i + 1).map_values(
                |w: Seq<char>| stem_short(w),
            ));
        }
        assert(ws.subrange(0, n as int) == ws);
        result
    }

    /// The tokens of one white-space-separated part.
    fn tokenize_part(&self, part: &str) -> (r: Vec<String>)
        ensures
            views(r@) == part_tokens(self@, part@),
    {
        if contains_cjk(part) {
            let segments = segment(&self.chinese_tokenizer, part);
            let ghost segs = segments_of(part@);
            let mut out: Vec<String> = Vec::new();
            let n = segments.len();
            for i in 0..n
                invariant
                    n == segments@.len(),
                    views(segments@) == segs,
                    views(out@) == segs.subrange(0, i as int).map_values(
                        |w: Seq<char>| translate_piece(self@, w),
                    ),
            {
                assert(segments@[i as int]@ == segs[i as int]);
                let t = self.translate_segment(segments[i].as_str());
                let ghost before = out@;
                out.push(t);
                assert(views(out@) =~= views(before).push(translate_piece(self@, segs[i as int])));
                assert(views(out@) =~= segs.subrange(0, i + 1).map_values(
                    |w: Seq<char>| translate_piece(self@, w),
                ));
            }
            assert(segs.subrange(0, n as int) == segs);
            out
        } else if contains_char(part, '-') {
            split_on(part, '-')
        } else {
            self.split_camel_case(part)
        }
    }

    /// The tokens of a normalized text, in order of appearance.
    pub fn tokenize(&self, text: &str) -> (r: Vec<String>)
        ensures
            views(r@) == tokens_of(self@, text@),
    {
        let mut tokens: Vec<String> = Vec::new();
        let parts = split_whitespace(text);
        let ghost ps = words(text@).map_values(|p: Seq<char>| part_tokens(self@, p));
        let n = parts.len();
        assert(concat_all(ps.subrange(0, 0)) =~= Seq::<Seq<char>>::empty());
        assert(views(tokens@) =~= Seq::<Seq<char>>::empty());
        for i in 0..n
            invariant
                n == parts@.len(),
                views(parts@) == words(text@),
                ps == words(text@).map_values(|p: Seq<char>| part_tokens(self@, p)),
                views(tokens@) == concat_all(ps.subrange(0, i as int)),
        {
            proof {
                assert(ps.subrange(0, i + 1).drop_last() == ps.subrange(0, i as int));
                assert(ps[i as int] == part_tokens(self@, parts@[i as int]@));
            }
            let more = self.tokenize_part(parts[i].as_str());
            append_all(&mut tokens, more);
        }
        assert(ps.subrange(0, n as int) == ps);
        tokens
    }

    /// Drops stop words, but never a token with an ideograph; where nothing
    /// is left, keeps the first token with an ideograph, if any.
    pub fn filter_stop_words(&self, tokens: &[String]) -> (r: Vec<String>)
        ensures
            views(r@) == filter_stop(self@, views(tokens@)),
    {
        let ghost ts = views(tokens@);
        let ghost pred = keeper(self@);
        let mut filtered: Vec<String> = Vec::new();
        let n = tokens.len();
        assert(ts.subrange(0, 0).filter(pred) =~= Seq::<Seq<char>>::empty()) by {
            reveal(Seq::filter);
        }
        assert(views(filtered@) =~= Seq::<Seq<char>>::empty());
        for i in 0..n
            invariant
                n == tokens@.len(),
                ts == views(tokens@),
                pred == keeper(self@),
                views(filtered@) == ts.subrange(0, i as int).filter(pred),
        {
            proof {
                assert(ts.subrange(0, i + 1).drop_last() == ts.subrange(0, i as int));
                assert(ts.subrange(0, i + 1).last() == tokens@[i as int]@);
                assert(pred(ts[i as int]) == keeps(self@, ts[i as int]));
                let post = ts.subrange(0, i + 1);
                reveal(Seq::filter);
                assert(post.filter(pred) == if pred(post.last()) {
                    post.drop_last().filter(pred).push(post.last())
                } else {
                    post.drop_last().filter(pred)
                });
            }
            let token = tokens[i].as_str();
            if contains_cjk(token) || !self.is_stop_word(token) {
                let ghost before = filtered@;
                filtered.push(tokens[i].clone());
                assert(views(filtered@) =~= views(before).push(tokens@[i as int]@));
            }
        }
        assert(ts.subrange(0, n as int) == ts);
        if filtered.len() == 0 {
            for i in 0..n
                invariant
                    n == tokens@.len(),
                    ts == views(tokens@),
                    pred == keeper(self@),
                    views(filtered@) == ts.filter(pred),
                    filtered@.len() == 0,
                    first_cjk(ts.subrange(0, i as int)) is None,
            {
                proof {
                    assert(ts.subrange(0, i + 1).drop_last() == ts.subrange(0, i as int));
                    assert(ts.subrange(0, i + 1).last() == tokens@[i as int]@);
                }
                if contains_cjk(tokens[i].as_str()) {
                    proof {
                        lemma_first_cjk_extends(ts, i as int + 1);
                    }
                    let mut one: Vec<String> = Vec::new();
                    one.push(tokens[i].clone());
                    assert(views(one@) =~= seq![ts[i as int]]);
                    return one;
                }
            }
            assert(ts.subrange(0, n as int) == ts);
        }
        filtered
    }

    /// The identifier for `description` in `style`: the only element of the
    /// result. Fails only where no token is left.
    pub fn generate(&self, description: &str, style: NamingStyle) -> (r: Result<Vec<String>, Error>)
        ensures
            r matches Ok(names) ==> names@.len() == 1 && rule_output(self@, description@, style)
                == Some(names@[0]@),
            r matches Err(e) ==> e is RuleError && rule_output(self@, description@, style) is None,
    {
        let processed_text = self.preprocess_text(description);
        let tokens = self.tokenize(processed_text.as_str());
        let filtered_tokens = self.filter_stop_words(tokens.as_slice());
        let variable_name = convert_to_style(filtered_tokens.as_slice(), style)?;
        Ok(vec![variable_name])
    }
}

/// Where the first `k` tokens hold an ideograph only in the last one, that
/// one is the first with an ideograph.
proof fn lemma_first_cjk_extends(ts: Seq<Seq<char>>, k: int)
    requires
        0 < k <= ts.len(),
        first_cjk(ts.subrange(0, k - 1)) is None,
        has_cjk(ts[k - 1]),
    ensures
        forall|j: int| k <= j <= ts.len() ==> first_cjk(#[trigger] ts.subrange(0, j)) == Some(
            ts[k - 1],
        ),
{
    assert(ts.subrange(0, k).drop_last() == ts.subrange(0, k - 1));
    assert forall|j: int| k <= j <= ts.len() implies first_cjk(#[trigger] ts.subrange(0, j))
        == Some(ts[k - 1]) by {
        lemma_first_cjk_prefix(ts, k, j);
    }
}

proof fn lemma_first_cjk_prefix(ts: Seq<Seq<char>>, k: int, j: int)
    requires
        0 < k <= j <= ts.len(),
        first_cjk(ts.subrange(0, k - 1)) is None,
        has_cjk(ts[k - 1]),
    ensures
        first_cjk(ts.subrange(0, j)) == Some(ts[k - 1]),
    decreases j - k,
{
    assert(ts.subrange(0, k).drop_last() == ts.subrange(0, k - 1));
    assert(ts.subrange(0, k).last() == ts[k - 1]);
    if j > k {
        lemma_first_cjk_prefix(ts, k, j - 1);
        assert(ts.subrange(0, j).drop_last() == ts.subrange(0, j - 1));
    }
}

/// Appends the strings of `more`.
fn append_all(tokens: &mut Vec<String>, more: Vec<String>)
    ensures
        views(final(tokens)@) == views(old(tokens)@) + views(more@),
{
    let n = more.len();
    let ghost start = views(tokens@);
    for i in 0..n
        invariant
            n == more@.len(),
            views(tokens@) == start + views(more@).subrange(0, i as int),
    {
        let ghost before = tokens@;
        tokens.push(more[i].clone());
        assert(views(tokens@) =~= views(before).push(more@[i as int]@));
        assert(views(tokens@) =~= start + views(more@).subrange(0, i + 1));
    }
    assert(views(more@).subrange(0, n as int) == views(more@));
}

/// Inserts a space between each lower-case ASCII letter and an upper-case
/// ASCII letter right after it.
pub fn space_camel_boundaries(text: &str) -> (r: String)
    ensures
        r@ == camel_spaced(text@),
{
    let v = char_vec(text);
    let n = v.len();
    let mut r = String::new();
    for i in 0..n
        invariant
            n == v@.len(),
            v@ == text@,
            r@ == camel_spaced(v@.subrange(0, i as int)),
    {
        proof {
            let post = v@.subrange(0, i + 1);
            assert(post.drop_last() == v@.subrange(0, i as int));
            assert(post.last() == v@[i as int]);
            if i >= 1 {
                assert(post[i - 1] == v@[i - 1]);
            }
        }
        let c = v[i];
        if i >= 1 && 'a' <= v[i - 1] && v[i - 1] <= 'z' && 'A' <= c && c <= 'Z' {
            push_char(&mut r, ' ');
        }
        push_char(&mut r, c);
    }
    assert(v@.subrange(0, n as int) == v@);
    r
}

/// Every token of `ts` stays under `keeps`.
pub open spec fn all_kept(v: Vocabulary, ts: Seq<Seq<char>>) -> bool {
    forall|i: int| 0 <= i < ts.len() ==> keeps(v, #[trigger] ts[i])
}

proof fn lemma_filter_all_kept(v: Vocabulary, ts: Seq<Seq<char>>)
    requires
        all_kept(v, ts),
    ensures
        ts.filter(keeper(v)) == ts,
    decreases ts.len(),
{
    reveal(Seq::filter);
    if ts.len() > 0 {
        let p = ts.drop_last();
        assert forall|i: int| 0 <= i < p.len() implies keeps(v, #[trigger] p[i]) by {
            assert(p[i] == ts[i]);
        }
        lemma_filter_all_kept(v, p);
        assert(keeps(v, ts[ts.len() - 1]));
        assert(p.push(ts.last()) == ts);
    }
}

proof fn lemma_first_cjk_has_cjk(ts: Seq<Seq<char>>)
    ensures
        first_cjk(ts) matches Some(t) ==> has_cjk(t),
    decreases ts.len(),
{
    if ts.len() > 0 {
        lemma_first_cjk_has_cjk(ts.drop_last());
    }
}

/// A token list without stop words to drop is left as it is.
pub proof fn lemma_filter_keeps_filtered(v: Vocabulary, ts: Seq<Seq<char>>)
    requires
        all_kept(v, ts),
    ensures
        filter_stop(v, ts) == ts,
{
    lemma_filter_all_kept(v, ts);
    if ts.len() == 0 {
        assert(first_cjk(ts) is None);
    }
}

/// Filtering stop words twice is filtering them once.
pub proof fn lemma_filter_idempotent(v: Vocabulary, ts: Seq<Seq<char>>)
    ensures
        filter_stop(v, filter_stop(v, ts)) == filter_stop(v, ts),
{
    let kept = ts.filter(keeper(v));
    let once = filter_stop(v, ts);
    if kept.len() == 0 {
        lemma_first_cjk_has_cjk(ts);
        if let Some(t) = first_cjk(ts) {
            assert forall|i: int| 0 <= i < once.len() implies keeps(v, #[trigger] once[i]) by {
                assert(once[i] == t);
            }
        }
    } else {
        assert forall|i: int| 0 <= i < once.len() implies keeps(v, #[trigger] once[i]) by {
            ts.lemma_filter_pred(keeper(v), i);
        }
    }
    lemma_filter_keeps_filtered(v, once);
}

/// The rule engine is a function of its vocabulary, the description and
/// the style: two generators with the same vocabulary give the same
/// identifier, call after call.
pub proof fn lemma_rule_output_deterministic(
    g1: RuleGenerator,
    g2: RuleGenerator,
    description: Seq<char>,
    style: NamingStyle,
)
    requires
        g1@ == g2@,
    ensures
        rule_output(g1@, description, style) == rule_output(g2@, description, style),
{
}

/// No translation of the vocabulary holds an ideograph.
pub open spec fn translations_without_cjk(v: Vocabulary) -> bool {
    forall|k: Seq<char>| #[trigger] v.mappings.contains_key(k) ==> !has_cjk(v.mappings[k])
}

/// Every ideograph of `t` is one that the vocabulary does not translate.
pub open spec fn only_unmapped_cjk(v: Vocabulary, t: Seq<char>) -> bool {
    forall|i: int| 0 <= i < t.len() && is_cjk(#[trigger] t[i]) ==> !v.mappings.contains_key(
        seq![t[i]],
    )
}

proof fn lemma_translate_chars_unmapped(v: Vocabulary, w: Seq<char>)
    requires
        translations_without_cjk(v),
    ensures
        only_unmapped_cjk(v, translate_chars(v, w)),
    decreases w.len(),
{
    if w.len() > 0 {
        lemma_translate_chars_unmapped(v, w.drop_last());
        let a = translate_chars(v, w.drop_last());
        let c = w.last();
        let b = char_translation(v, c);
        if is_cjk(c) && v.mappings.contains_key(seq![c]) {
            assert(!has_cjk(b));
        }
        let t = a + b;
        assert forall|i: int| 0 <= i < t.len() && is_cjk(#[trigger] t[i]) implies !v.mappings.contains_key(
            seq![t[i]],
        ) by {
            if i < a.len() {
                assert(t[i] == a[i]);
            } else {
                assert(t[i] == b[i - a.len()]);
                if !(is_cjk(c) && v.mappings.contains_key(seq![c])) {
                    assert(b == seq![c]);
                    assert(t[i] == c);
                }
            }
        }
    }
}

/// With translations free of ideographs, the token a Chinese segment
/// becomes holds no ideograph but ones the vocabulary leaves untranslated,
/// and a rule-engine filter never drops a token that holds one.
pub proof fn lemma_translation_leaves_only_unmapped(v: Vocabulary, w: Seq<char>, ts: Seq<Seq<char>>)
    requires
        translations_without_cjk(v),
    ensures
        only_unmapped_cjk(v, translate_piece(v, w)),
        forall|i: int| 0 <= i < ts.len() && has_cjk(#[trigger] ts[i]) ==> filter_stop(
            v,
            ts,
        ).contains(ts[i]),
{
    if !v.mappings.contains_key(w) {
        lemma_translate_chars_unmapped(v, w);
    }
    assert forall|i: int| 0 <= i < ts.len() && has_cjk(#[trigger] ts[i]) implies filter_stop(
        v,
        ts,
    ).contains(ts[i]) by {
        assert(keeps(v, ts[i]));
        assert(keeper(v)(ts[i]));
        ts.lemma_filter_contains(keeper(v), i);
    }
}

/// Every token of `ts` holds no ideograph but untranslated ones.
pub open spec fn tokens_only_unmapped(v: Vocabulary, ts: Seq<Seq<char>>) -> bool {
    forall|j: int| 0 <= j < ts.len() ==> only_unmapped_cjk(v, #[trigger] ts[j])
}

proof fn lemma_concat_unmapped(v: Vocabulary, a: Seq<char>, b: Seq<char>)
    requires
        only_unmapped_cjk(v, a),
        only_unmapped_cjk(v, b),
    ensures
        only_unmapped_cjk(v, a + b),
{
    let t = a + b;
    assert forall|i: int| 0 <= i < t.len() && is_cjk(#[trigger] t[i]) implies !v.mappings.contains_key(
        seq![t[i]],
    ) by {
        if i < a.len() {
            assert(t[i] == a[i]);
        } else {
            assert(t[i] == b[i - a.len()]);
        }
    }
}

proof fn lemma_capitalized_unmapped(v: Vocabulary, t: Seq<char>)
    requires
        only_unmapped_cjk(v, t),
    ensures
        only_unmapped_cjk(v, capitalized(t)),
{
    if t.len() > 0 {
        let head = seq![ascii_upper(t[0])];
        assert forall|i: int| 0 <= i < head.len() && is_cjk(#[trigger] head[i]) implies !v.mappings.contains_key(
            seq![head[i]],
        ) by {
            assert(head[i] == t[0]);
        }
        let rest = t.drop_first();
        assert forall|i: int| 0 <= i < rest.len() && is_cjk(#[trigger] rest[i]) implies !v.mappings.contains_key(
            seq![rest[i]],
        ) by {
            assert(rest[i] == t[i + 1]);
        }
        lemma_concat_unmapped(v, head, rest);
    }
}

proof fn lemma_pascal_unmapped(v: Vocabulary, ts: Seq<Seq<char>>)
    requires
        tokens_only_unmapped(v, ts),
    ensures
        only_unmapped_cjk(v, pascal(ts)),
    decreases ts.len(),
{
    if ts.len() > 0 {
        let p = ts.drop_last();
        assert forall|j: int| 0 <= j < p.len() implies only_unmapped_cjk(v, #[trigger] p[j]) by {
            assert(p[j] == ts[j]);
        }
        lemma_pascal_unmapped(v, p);
        assert(only_unmapped_cjk(v, ts[ts.len() - 1]));
        lemma_capitalized_unmapped(v, ts.last());
        lemma_concat_unmapped(v, pascal(p), capitalized(ts.last()));
    }
}

proof fn lemma_join_unmapped(v: Vocabulary, ts: Seq<Seq<char>>, sep: Seq<char>)
    requires
        tokens_only_unmapped(v, ts),
        !has_cjk(sep),
    ensures
        only_unmapped_cjk(v, join(ts, sep)),
    decreases ts.len(),
{
    if ts.len() == 1 {
        assert(only_unmapped_cjk(v, ts[0]));
    } else if ts.len() > 1 {
        let p = ts.drop_last();
        assert forall|j: int| 0 <= j < p.len() implies only_unmapped_cjk(v, #[trigger] p[j]) by {
            assert(p[j] == ts[j]);
        }
        lemma_join_unmapped(v, p, sep);
        lemma_concat_unmapped(v, join(p, sep), sep);
        assert(only_unmapped_cjk(v, ts[ts.len() - 1]));
        lemma_concat_unmapped(v, join(p, sep) + sep, ts.last());
    }
}

/// Rendering adds no ideograph: in every style but upper snake case (whose
/// Unicode case mapping is not modelled), an identifier made of tokens that
/// hold no ideograph but untranslated ones holds none either.
pub proof fn lemma_render_leaves_only_unmapped(v: Vocabulary, ts: Seq<Seq<char>>, style: NamingStyle)
    requires
        tokens_only_unmapped(v, ts),
        style != NamingStyle::UpperSnake,
    ensures
        only_unmapped_cjk(v, render(ts, style)),
{
    match style {
        NamingStyle::Pascal => lemma_pascal_unmapped(v, ts),
        NamingStyle::Camel | NamingStyle::LowerCamel => {
            if ts.len() > 0 {
                let rest = ts.drop_first();
                assert forall|j: int| 0 <= j < rest.len() implies only_unmapped_cjk(
                    v,
                    #[trigger] rest[j],
                ) by {
                    assert(rest[j] == ts[j + 1]);
                }
                lemma_pascal_unmapped(v, rest);
                assert(only_unmapped_cjk(v, ts[0]));
                lemma_concat_unmapped(v, ts[0], pascal(rest));
            }
        },
        NamingStyle::Snake => {
            assert(!has_cjk(seq!['_']));
            lemma_join_unmapped(v, ts, seq!['_']);
        },
        _ => {
            assert(!has_cjk(seq!['-']));
            lemma_join_unmapped(v, ts, seq!['-']);
        },
    }
}

} // verus!
