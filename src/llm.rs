//! The remote backend's own logic: the prompt it sends, the parsing of the
//! reply into candidates, the cache of replies, and the choice of provider.
//! Sending the prompt is the caller's part.
use vstd::prelude::*;
use crate::error::Error;
use crate::style::{label_of, NamingStyle};
use crate::text::{pieces, split_on, trim, trimmed, views};

verus! {

/// The replies a cache holds: a later entry for a key replaces an earlier one.
pub open spec fn cache_map(s: Seq<(String, Vec<String>)>) -> Map<Seq<char>, Seq<Seq<char>>>
    decreases s.len(),
{
    if s.len() == 0 {
        Map::empty()
    } else {
        cache_map(s.drop_last()).insert(s.last().0@, views(s.last().1@))
    }
}

/// Replies stored by (description, style), kept for the life of the
/// process.
#[derive(Debug)]
pub struct ResponseCache {
    entries: Vec<(String, Vec<String>)>,
}

impl View for ResponseCache {
    type V = Map<Seq<char>, Seq<Seq<char>>>;

    closed spec fn view(&self) -> Map<Seq<char>, Seq<Seq<char>>> {
        cache_map(self.entries@)
    }
}

/// A copy of `v`, string by string.
fn copy_strings(v: &Vec<String>) -> (r: Vec<String>)
    ensures
        views(r@) == views(v@),
{
    let mut r: Vec<String> = Vec::new();
    let n = v.len();
    for i in 0..n
        invariant
            n == v@.len(),
            views(r@) == views(v@).subrange(0, i as int),
    {
        let ghost before = r@;
        r.push(v[i].clone());
        assert(views(r@) =~= views(before).push(v@[i as int]@));
        assert(views(r@) =~= views(v@).subrange(0, i + 1));
    }
    assert(views(v@).subrange(0, n as int) == views(v@));
    r
}

impl ResponseCache {
    /// An empty cache.
    pub fn new() -> (r: ResponseCache)
        ensures
            r@ == Map::<Seq<char>, Seq<Seq<char>>>::empty(),
    {
        ResponseCache { entries: Vec::new() }
    }

    /// The reply stored under `key`.
    pub fn get(&self, key: &str) -> (r: Option<Vec<String>>)
        ensures
            r is Some <==> self@.contains_key(key@),
            r matches Some(v) ==> views(v@) == self@[key@],
    {
        let wanted = key.to_string();
        let s = &self.entries;
        let mut i: usize = s.len();
        proof {
            assert(s@.subrange(0, i as int) == s@);
        }
        while i > 0
            invariant
                i <= s@.len(),
                wanted@ == key@,
                s@ == self.entries@,
                cache_map(s@.subrange(0, i as int)).contains_key(key@) == self@.contains_key(
                    key@,
                ),
                self@.contains_key(key@) ==> cache_map(s@.subrange(0, i as int))[key@]
                    == self@[key@],
            decreases i,
        {
            let ghost pre = s@.subrange(0, i as int);
            proof {
                assert(pre.drop_last() == s@.subrange(0, i - 1));
                assert(pre.last() == s@[i - 1]);
            }
            if s[i - 1].0 == wanted {
                return Some(copy_strings(&s[i - 1].1));
            }
            i = i - 1;
        }
        None
    }

    /// Stores `value` under `key`, replacing what was there.
    pub fn insert(&mut self, key: String, value: Vec<String>)
        ensures
            final(self)@ == old(self)@.insert(key@, views(value@)),
    {
        let ghost before = self.entries@;
        self.entries.push((key, value));
        assert(self.entries@.drop_last() == before);
    }
}

/// The services that can answer a prompt.
#[derive(Clone, Copy, Debug, PartialEq, Eq, Structural)]
pub enum Provider {
    Qwen,
    Xinghuo,
}

/// The cache key of a request: the description, a colon, the style's label.
pub open spec fn cache_key(description: Seq<char>, style: NamingStyle) -> Seq<char> {
    description + seq![':'] + label_of(style)
}

/// How the prompt names a style, with an example.
pub open spec fn style_hint(style: NamingStyle) -> Seq<char> {
    match style {
        NamingStyle::Camel => "camelCase (e.g., userName)"@,
        NamingStyle::Pascal => "PascalCase (e.g., UserName)"@,
        NamingStyle::Snake => "snake_case (e.g., user_name)"@,
        NamingStyle::Kebab => "kebab-case (e.g., user-name)"@,
        NamingStyle::UpperSnake => "UPPER_SNAKE_CASE (e.g., USER_NAME)"@,
        NamingStyle::LowerCamel => "lowerCamelCase (e.g., userName)"@,
    }
}

/// The prompt for a description in a style: ask for identifiers of that
/// style only, comma-separated, preferably English.
pub open spec fn prompt_for(description: Seq<char>, style: NamingStyle) -> Seq<char> {
    "请根据以下描述生成符合"@ + style_hint(style)
        + "格式的变量名，仅输出变量名，多个候选用逗号分隔，尽量用英文变量名，无需额外解释：\n"@
        + description
}

/// The candidates of a reply: its comma-separated pieces, trimmed, the
/// empty ones dropped.
pub open spec fn candidates(reply: Seq<char>) -> Seq<Seq<char>> {
    pieces(trimmed(reply), ',').map_values(|p: Seq<char>| trimmed(p)).filter(
        |p: Seq<char>| p.len() > 0,
    )
}

/// The reply a cache gives to a request, if it holds one.
pub open spec fn cached_reply(
    cache: Map<Seq<char>, Seq<Seq<char>>>,
    description: Seq<char>,
    style: NamingStyle,
) -> Option<Seq<Seq<char>>> {
    let key = cache_key(description, style);
    if cache.contains_key(key) {
        Some(cache[key])
    } else {
        None
    }
}

/// What the remote backend does next for a request.
#[derive(Debug)]
pub enum RemoteStep {
    /// The cache holds the candidates: no call is made.
    Cached(Vec<String>),
    /// Send `prompt`; hand the reply to `complete` with `cache_key`.
    Request { prompt: String, cache_key: String },
}

/// The remote backend: a credential, a model name and a reply cache.
#[derive(Debug)]
pub struct LLMGenerator {
    api_key: String,
    model: String,
    cache: ResponseCache,
}

impl LLMGenerator {
    pub closed spec fn cache_view(&self) -> Map<Seq<char>, Seq<Seq<char>>> {
        self.cache@
    }

    pub closed spec fn model_view(&self) -> Seq<char> {
        self.model@
    }

    pub closed spec fn key_view(&self) -> Seq<char> {
        self.api_key@
    }

    /// A backend for `model`; without a credential there is none.
    pub fn new(api_key: Option<String>, model: String) -> (r: Result<LLMGenerator, Error>)
        ensures
            api_key is None <==> r is Err,
            r matches Err(e) ==> e is LLMError,
            r matches Ok(g) ==> {
                &&& api_key matches Some(k) && g.key_view() == k@
                &&& g.model_view() == model@
                &&& g.cache_view() == Map::<Seq<char>, Seq<Seq<char>>>::empty()
            },
    {
        match api_key {
            None => Err(Error::LLMError("API key not configured".to_string())),
            Some(api_key) => Ok(LLMGenerator { api_key, model, cache: ResponseCache::new() }),
        }
    }

    /// The credential.
    pub fn api_key(&self) -> (r: &str)
        ensures
            r@ == self.key_view(),
    {
        self.api_key.as_str()
    }

    /// The model name.
    pub fn model(&self) -> (r: &str)
        ensures
            r@ == self.model_view(),
    {
        self.model.as_str()
    }

    /// The cache key of a request.
    pub fn cache_key(description: &str, style: NamingStyle) -> (r: String)
        ensures
            r@ == cache_key(description@, style),
    {
        let mut key = description.to_string();
        key.append(":");
        key.append(style.label());
        proof {
            reveal_strlit(":");
        }
        key
    }

    /// The prompt for a description in a style.
    pub fn build_prompt(&self, description: &str, style: NamingStyle) -> (r: String)
        ensures
            r@ == prompt_for(description@, style),
    {
        let style_desc = match style {
            NamingStyle::Camel => "camelCase (e.g., userName)",
            NamingStyle::Pascal => "PascalCase (e.g., UserName)",
            NamingStyle::Snake => "snake_case (e.g., user_name)",
            NamingStyle::Kebab => "kebab-case (e.g., user-name)",
            NamingStyle::UpperSnake => "UPPER_SNAKE_CASE (e.g., USER_NAME)",
            NamingStyle::LowerCamel => "lowerCamelCase (e.g., userName)",
        };
        let mut prompt = "请根据以下描述生成符合".to_string();
        prompt.append(style_desc);
        prompt.append("格式的变量名，仅输出变量名，多个候选用逗号分隔，尽量用英文变量名，无需额外解释：\n");
        prompt.append(description);
        prompt
    }

    /// The provider that serves the model.
    pub fn call_api(&self) -> (r: Result<Provider, Error>)
        ensures
            self.model_view() == "qwen-tiny"@ ==> r == Ok::<Provider, Error>(Provider::Qwen),
            self.model_view() == "xinghuo-lite"@ ==> r == Ok::<Provider, Error>(
                Provider::Xinghuo,
            ),
            self.model_view() != "qwen-tiny"@ && self.model_view() != "xinghuo-lite"@ ==> (r matches Err(e) && e is LLMError),
    {
        let qwen = "qwen-tiny".to_string();
        let xinghuo = "xinghuo-lite".to_string();
        proof {
            reveal_strlit("qwen-tiny");
            reveal_strlit("xinghuo-lite");
            assert("qwen-tiny"@.len() != "xinghuo-lite"@.len());
        }
        if self.model == qwen {
            Ok(Provider::Qwen)
        } else if self.model == xinghuo {
            Ok(Provider::Xinghuo)
        } else {
            let mut message = "Unsupported model: ".to_string();
            message.append(self.model.as_str());
            Err(Error::LLMError(message))
        }
    }

    /// Splits a reply into candidates; a reply without any is refused.
    pub fn parse_response(&self, response: &str) -> (r: Result<Vec<String>, Error>)
        ensures
            candidates(response@).len() == 0 <==> r is Err,
            r matches Err(e) ==> e is LLMError,
            r matches Ok(names) ==> views(names@) == candidates(response@),
    {
        let cleaned = trim(response);
        let parts = split_on(cleaned.as_str(), ',');
        let ghost ps = pieces(trimmed(response@), ',');
        let ghost tr = ps.map_values(|p: Seq<char>| trimmed(p));
        let ghost pred = |p: Seq<char>| p.len() > 0;
        let mut names: Vec<String> = Vec::new();
        let n = parts.len();
        assert(tr.subrange(0, 0).filter(pred) =~= Seq::<Seq<char>>::empty()) by {
            reveal(Seq::filter);
        }
        assert(views(names@) =~= Seq::<Seq<char>>::empty());
        for i in 0..n
            invariant
                n == parts@.len(),
                views(parts@) == ps,
                tr == ps.map_values(|p: Seq<char>| trimmed(p)),
                pred == (|p: Seq<char>| p.len() > 0),
                views(names@) == tr.subrange(0, i as int).filter(pred),
        {
            let name = trim(parts[i].as_str());
            proof {
                let post = tr.subrange(0, i + 1);
                assert(post.drop_last() == tr.subrange(0, i as int));
                assert(post.last() == name@);
                reveal(Seq::filter);
                assert(post.filter(pred) == if pred(post.last()) {
                    post.drop_last().filter(pred).push(post.last())
                } else {
                    post.drop_last().filter(pred)
                });
            }
            if !name.as_str().is_empty() {
                let ghost before = names@;
                names.push(name);
                assert(views(names@) =~= views(before).push(names@.last()@));
            }
        }
        assert(tr.subrange(0, n as int) == tr);
        if names.len() == 0 {
            return Err(Error::LLMError("No valid variable names found in response".to_string()));
        }
        Ok(names)
    }

    /// The next step of a request: the cached candidates, or the prompt to
    /// send and the key to store the reply under.
    pub fn generate(&self, description: &str, style: NamingStyle) -> (r: RemoteStep)
        ensures
            r matches RemoteStep::Cached(v) ==> cached_reply(self.cache_view(), description@, style)
                == Some(views(v@)),
            r matches RemoteStep::Request { prompt, cache_key: key } ==> {
                &&& cached_reply(self.cache_view(), description@, style) is None
                &&& prompt@ == prompt_for(description@, style)
                &&& key@ == cache_key(description@, style)
            },
    {
        let key = Self::cache_key(description, style);
        match self.cache.get(key.as_str()) {
            Some(v) => RemoteStep::Cached(v),
            None => RemoteStep::Request {
                prompt: self.build_prompt(description, style),
                cache_key: key,
            },
        }
    }

    /// Takes the reply to a request: its candidates, which are stored under
    /// `cache_key`; a reply without candidates is refused and not stored.
    pub fn complete(&mut self, cache_key: &str, response: &str) -> (r: Result<Vec<String>, Error>)
        ensures
            candidates(response@).len() == 0 <==> r is Err,
            r matches Err(e) ==> e is LLMError && final(self).cache_view() == old(
                self,
            ).cache_view(),
            r matches Ok(names) ==> {
                &&& views(names@) == candidates(response@)
                &&& final(self).cache_view() == old(self).cache_view().insert(
                    cache_key@,
                    candidates(response@),
                )
            },
            final(self).model_view() == old(self).model_view(),
            final(self).key_view() == old(self).key_view(),
    {
        let names = self.parse_response(response)?;
        self.cache.insert(cache_key.to_string(), copy_strings(&names));
        Ok(names)
    }
}

/// A request whose reply was stored is answered from the cache the next
/// time: no second completion call is made for the same description and
/// style.
pub proof fn lemma_stored_reply_is_reused(
    cache: Map<Seq<char>, Seq<Seq<char>>>,
    description: Seq<char>,
    style: NamingStyle,
    reply: Seq<char>,
)
    ensures
        cached_reply(
            cache.insert(cache_key(description, style), candidates(reply)),
            description,
            style,
        ) == Some(candidates(reply)),
{
}

} // verus!
