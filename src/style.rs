//! Naming conventions, and the renderer that joins tokens into an
//! identifier in one of them.
use vstd::prelude::*;
use crate::error::Error;
use crate::text::{join, join_with, upper_of, uppercase, views};

verus! {

/// The six naming conventions an identifier can be rendered in, in their
/// display order.
#[derive(Clone, Copy, Debug, PartialEq, Eq, Structural, PartialOrd, Ord, Hash)]
pub enum NamingStyle {
    Camel,
    Pascal,
    Snake,
    Kebab,
    UpperSnake,
    LowerCamel,
}

/// The human-readable label of a style.
pub open spec fn label_of(style: NamingStyle) -> Seq<char> {
    match style {
        NamingStyle::Camel => "驼峰命名法 (camelCase)"@,
        NamingStyle::Pascal => "帕斯卡命名法 (PascalCase)"@,
        NamingStyle::Snake => "下划线命名法 (snake_case)"@,
        NamingStyle::Kebab => "短横线命名法 (kebab-case)"@,
        NamingStyle::UpperSnake => "大写下划线命名法 (UPPER_SNAKE_CASE)"@,
        NamingStyle::LowerCamel => "小驼峰命名法 (lowerCamelCase)"@,
    }
}

impl NamingStyle {
    /// The label shown to users.
    pub fn label(&self) -> (r: &'static str)
        ensures
            r@ == label_of(*self),
    {
        match self {
            NamingStyle::Camel => "驼峰命名法 (camelCase)",
            NamingStyle::Pascal => "帕斯卡命名法 (PascalCase)",
            NamingStyle::Snake => "下划线命名法 (snake_case)",
            NamingStyle::Kebab => "短横线命名法 (kebab-case)",
            NamingStyle::UpperSnake => "大写下划线命名法 (UPPER_SNAKE_CASE)",
            NamingStyle::LowerCamel => "小驼峰命名法 (lowerCamelCase)",
        }
    }

    /// The label as an owned string.
    pub fn to_string(&self) -> (r: String)
        ensures
            r@ == label_of(*self),
    {
        self.label().to_string()
    }

    /// Every style, in display order.
    pub fn all() -> (r: Vec<NamingStyle>)
        ensures
            r@ == seq![
                NamingStyle::Camel,
                NamingStyle::Pascal,
                NamingStyle::Snake,
                NamingStyle::Kebab,
                NamingStyle::UpperSnake,
                NamingStyle::LowerCamel,
            ],
    {
        vec![
            NamingStyle::Camel,
            NamingStyle::Pascal,
            NamingStyle::Snake,
            NamingStyle::Kebab,
            NamingStyle::UpperSnake,
            NamingStyle::LowerCamel,
        ]
    }

    /// The style at position `index` of the interactive menu, which lists
    /// snake, camel, Pascal, kebab, upper snake and lower camel case; snake
    /// case for any other index.
    pub fn from_menu_index(index: usize) -> (r: NamingStyle)
        ensures
            r == menu_style(index as int),
    {
        match index {
            0 => NamingStyle::Snake,
            1 => NamingStyle::Camel,
            2 => NamingStyle::Pascal,
            3 => NamingStyle::Kebab,
            4 => NamingStyle::UpperSnake,
            5 => NamingStyle::LowerCamel,
            _ => NamingStyle::Snake,
        }
    }
}

pub open spec fn menu_style(index: int) -> NamingStyle {
    if index == 1 {
        NamingStyle::Camel
    } else if index == 2 {
        NamingStyle::Pascal
    } else if index == 3 {
        NamingStyle::Kebab
    } else if index == 4 {
        NamingStyle::UpperSnake
    } else if index == 5 {
        NamingStyle::LowerCamel
    } else {
        NamingStyle::Snake
    }
}

/// Upper-case form of an ASCII lower-case letter; any other character is
/// kept. This is `char::to_ascii_uppercase`.
pub open spec fn ascii_upper(c: char) -> char {
    if 'a' <= c && c <= 'z' {
        (((c as u32) - 32) as u8) as char
    } else {
        c
    }
}

pub fn to_ascii_upper(c: char) -> (r: char)
    ensures
        r == ascii_upper(c),
{
    if 'a' <= c && c <= 'z' {
        ((c as u8) - 32) as char
    } else {
        c
    }
}

/// `t` with its first character, if any, upper-cased by `ascii_upper`.
pub open spec fn capitalized(t: Seq<char>) -> Seq<char> {
    if t.len() == 0 {
        t
    } else {
        seq![ascii_upper(t[0])] + t.drop_first()
    }
}

/// Every token capitalized, concatenated.
pub open spec fn pascal(ts: Seq<Seq<char>>) -> Seq<char>
    decreases ts.len(),
{
    if ts.len() == 0 {
        Seq::empty()
    } else {
        pascal(ts.drop_last()) + capitalized(ts.last())
    }
}

/// The first token as it is, then every other token capitalized.
pub open spec fn camel(ts: Seq<Seq<char>>) -> Seq<char> {
    if ts.len() == 0 {
        Seq::empty()
    } else {
        ts[0] + pascal(ts.drop_first())
    }
}

/// The identifier that `tokens` give in `style`.
pub open spec fn render(ts: Seq<Seq<char>>, style: NamingStyle) -> Seq<char> {
    match style {
        NamingStyle::Camel | NamingStyle::LowerCamel => camel(ts),
        NamingStyle::Pascal => pascal(ts),
        NamingStyle::Snake => join(ts, seq!['_']),
        NamingStyle::Kebab => join(ts, seq!['-']),
        NamingStyle::UpperSnake => upper_of(join(ts, seq!['_'])),
    }
}

/// Upper-cases the first character of `t` if it is an ASCII letter.
pub fn capitalize(t: &str) -> (r: String)
    ensures
        r@ == capitalized(t@),
{
    let mut r = String::new();
    for c in it: t.chars()
        invariant
            it.seq() == t@,
            r@ == capitalized(t@.subrange(0, it.index() as int)),
    {
        let ghost i = it.index() as int;
        proof {
            let pre = t@.subrange(0, i);
            let post = t@.subrange(0, i + 1);
            assert(post == pre.push(c));
            if i > 0 {
                assert(post.drop_first() == pre.drop_first().push(c));
            }
        }
        if r.as_str().is_empty() {
            push_first(&mut r, to_ascii_upper(c));
        } else {
            crate::text::push_char(&mut r, c);
        }
    }
    proof {
        assert(t@.subrange(0, t@.len() as int) == t@);
    }
    r
}

fn push_first(r: &mut String, c: char)
    requires
        old(r)@.len() == 0,
    ensures
        final(r)@ == seq![c],
{
    crate::text::push_char(r, c);
    assert(r@ == seq![c]);
}

pub fn to_pascal_case(tokens: &[String]) -> (r: String)
    ensures
        r@ == pascal(views(tokens@)),
{
    let mut r = String::new();
    let n = tokens.len();
    for i in 0..n
        invariant
            n == tokens@.len(),
            r@ == pascal(views(tokens@).subrange(0, i as int)),
    {
        proof {
            let post = views(tokens@).subrange(0, i + 1);
            assert(post.drop_last() == views(tokens@).subrange(0, i as int));
            assert(post.last() == tokens@[i as int]@);
        }
        let cap = capitalize(tokens[i].as_str());
        r.append(cap.as_str());
    }
    proof {
        assert(views(tokens@).subrange(0, n as int) == views(tokens@));
    }
    r
}

pub fn to_camel_case(tokens: &[String]) -> (r: String)
    ensures
        r@ == camel(views(tokens@)),
{
    let n = tokens.len();
    if n == 0 {
        return String::new();
    }
    let mut r = tokens[0].clone();
    for i in 1..n
        invariant
            n == tokens@.len(),
            n > 0,
            r@ == tokens@[0]@ + pascal(views(tokens@).subrange(1, i as int)),
    {
        proof {
            let post = views(tokens@).subrange(1, i + 1);
            assert(post.drop_last() == views(tokens@).subrange(1, i as int));
            assert(post.last() == tokens@[i as int]@);
        }
        let cap = capitalize(tokens[i].as_str());
        r.append(cap.as_str());
    }
    proof {
        assert(views(tokens@).subrange(1, n as int) == views(tokens@).drop_first());
    }
    r
}

pub fn to_snake_case(tokens: &[String]) -> (r: String)
    ensures
        r@ == join(views(tokens@), seq!['_']),
{
    proof {
        reveal_strlit("_");
        assert("_"@ == seq!['_']);
    }
    join_with(tokens, "_")
}

pub fn to_kebab_case(tokens: &[String]) -> (r: String)
    ensures
        r@ == join(views(tokens@), seq!['-']),
{
    proof {
        reveal_strlit("-");
        assert("-"@ == seq!['-']);
    }
    join_with(tokens, "-")
}

pub fn to_upper_snake_case(tokens: &[String]) -> (r: String)
    ensures
        r@ == upper_of(join(views(tokens@), seq!['_'])),
{
    let joined = to_snake_case(tokens);
    uppercase(joined.as_str())
}

/// Renders `tokens` in `style`; an empty token list is refused.
pub fn convert_to_style(tokens: &[String], style: NamingStyle) -> (r: Result<String, Error>)
    ensures
        tokens@.len() == 0 <==> r is Err,
        r matches Err(e) ==> e is RuleError,
        r matches Ok(name) ==> name@ == render(views(tokens@), style),
{
    if tokens.len() == 0 {
        return Err(Error::RuleError("No valid tokens after processing".to_string()));
    }
    let name = match style {
        NamingStyle::Camel => to_camel_case(tokens),
        NamingStyle::Pascal => to_pascal_case(tokens),
        NamingStyle::Snake => to_snake_case(tokens),
        NamingStyle::Kebab => to_kebab_case(tokens),
        NamingStyle::UpperSnake => to_upper_snake_case(tokens),
        NamingStyle::LowerCamel => to_camel_case(tokens),
    };
    Ok(name)
}

} // verus!
