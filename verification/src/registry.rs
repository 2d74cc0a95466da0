//! The token registry: a mapping from a placeholder key (`"[year]"`,
//! `"[filename]"`, ...) to the rule that computes its replacement from a
//! file's capture metadata and its entry info. Resolving a template replaces,
//! token by token in registration order, every occurrence of each key.
//!
//! Because substitution is a repeated replace-all, a replacement string that
//! itself contains another token's key text is substituted again by a later
//! token; callers should keep replacement values clear of token syntax.

use vstd::prelude::*;
use vstd::string::*;
use crate::metadata::{CaptureDate, ExtractError};
use crate::paths::EntryInfo;
use crate::text::{dec_rep, dec_string, int_rep, int_string, replace_all, replace_all_str};

verus! {

/// What a token resolves to: a calendar field of the capture timestamp, or a
/// name part of the file entry.
#[derive(Clone, Copy, PartialEq, Eq, Structural, Debug)]
pub enum TokenKind {
    Year,
    Month,
    Day,
    Hour,
    Minute,
    Second,
    Extension,
    FileName,
}

/// The replacement text of one token for one file.
pub open spec fn token_value(kind: TokenKind, d: CaptureDate, ent: EntryInfo) -> Seq<char> {
    match kind {
        TokenKind::Year => int_rep(d.year as int),
        TokenKind::Month => dec_rep(d.month as nat),
        TokenKind::Day => dec_rep(d.day as nat),
        TokenKind::Hour => dec_rep(d.hour as nat),
        TokenKind::Minute => dec_rep(d.minute as nat),
        TokenKind::Second => dec_rep(d.second as nat),
        TokenKind::Extension => ent.extension@,
        TokenKind::FileName => ent.file_name@,
    }
}

impl TokenKind {
    /// Computes the replacement text, as `token_value` gives it.
    pub fn resolve(&self, d: &CaptureDate, ent: &EntryInfo) -> (r: String)
        ensures
            r@ == token_value(*self, *d, *ent),
    {
        match self {
            TokenKind::Year => int_string(d.year),
            TokenKind::Month => dec_string(d.month as u64),
            TokenKind::Day => dec_string(d.day as u64),
            TokenKind::Hour => dec_string(d.hour as u64),
            TokenKind::Minute => dec_string(d.minute as u64),
            TokenKind::Second => dec_string(d.second as u64),
            TokenKind::Extension => ent.extension.clone(),
            TokenKind::FileName => ent.file_name.clone(),
        }
    }
}

/// One registered token: its key as it appears in templates, a description
/// for help text, and the rule it resolves by.
pub struct Token {
    pub key: String,
    pub desc: String,
    pub kind: TokenKind,
}

/// The first registered token with the given key, if any.
pub open spec fn find_key(tokens: Seq<Token>, key: Seq<char>) -> Option<int>
    decreases tokens.len(),
{
    if tokens.len() == 0 {
        None
    } else if tokens[0].key@ == key {
        Some(0int)
    } else {
        match find_key(tokens.drop_first(), key) {
            None => None,
            Some(i) => Some(i + 1),
        }
    }
}

/// `find_key` finds the first occurrence of a key, and `None` means the key
/// is not registered.
pub proof fn lemma_find_key(tokens: Seq<Token>, key: Seq<char>)
    ensures
        match find_key(tokens, key) {
            Some(i) => 0 <= i < tokens.len() && tokens[i].key@ == key && (forall|k: int|
                0 <= k < i ==> tokens[k].key@ != key),
            None => forall|k: int| 0 <= k < tokens.len() ==> tokens[k].key@ != key,
        },
    decreases tokens.len(),
{
    if tokens.len() == 0 {
    } else if tokens[0].key@ == key {
    } else {
        let t = tokens.drop_first();
        lemma_find_key(t, key);
        match find_key(t, key) {
            Some(i) => {
                assert(tokens[i + 1] == t[i]);
                assert forall|k: int| 0 <= k < i + 1 implies tokens[k].key@ != key by {
                    if k > 0 {
                        assert(t[k - 1] == tokens[k]);
                    }
                }
            },
            None => {
                assert forall|k: int| 0 <= k < tokens.len() implies tokens[k].key@ != key by {
                    if k > 0 {
                        assert(t[k - 1] == tokens[k]);
                    }
                }
            },
        }
    }
}

/// Folds the registered tokens over a template, in registration order,
/// replacing all occurrences of each key by its value.
pub open spec fn apply_tokens(
    tokens: Seq<Token>,
    template: Seq<char>,
    d: CaptureDate,
    ent: EntryInfo,
) -> Seq<char>
    decreases tokens.len(),
{
    if tokens.len() == 0 {
        template
    } else {
        apply_tokens(
            tokens.drop_first(),
            replace_all(template, tokens[0].key@, token_value(tokens[0].kind, d, ent)),
            d,
            ent,
        )
    }
}

/// A template resolved against a registry with no tokens comes back
/// unchanged.
pub proof fn lemma_resolve_empty_registry(template: Seq<char>, d: CaptureDate, ent: EntryInfo)
    ensures
        apply_tokens(Seq::<Token>::empty(), template, d, ent) == template,
{
}

/// The token registry; populated at startup, read-only while planning.
pub struct Registry {
    tokens: Vec<Token>,
}

impl View for Registry {
    type V = Seq<Token>;

    closed spec fn view(&self) -> Seq<Token> {
        self.tokens@
    }
}

impl Registry {
    /// An empty registry.
    pub fn new() -> (r: Registry)
        ensures
            r@ == Seq::<Token>::empty(),
    {
        Registry { tokens: Vec::new() }
    }

    /// Registers a token: replaces the token with the same key, or appends a
    /// new one.
    pub fn add(&mut self, name: String, desc: String, kind: TokenKind)
        ensures
            ({
                let t = (Token { key: name, desc: desc, kind: kind });
                match find_key(old(self)@, name@) {
                    Some(i) => final(self)@ == old(self)@.update(i, t),
                    None => final(self)@ == old(self)@.push(t),
                }
            }),
    {
        let n = self.tokens.len();
        let mut i: usize = 0;
        while i < n
            invariant
                self@ == old(self)@,
                n == self.tokens@.len(),
                0 <= i <= n,
                forall|k: int| 0 <= k < i ==> self.tokens@[k].key@ != name@,
            decreases n - i,
        {
            if self.tokens[i].key.eq(&name) {
                proof {
                    lemma_find_key(old(self)@, name@);
                    assert(find_key(old(self)@, name@) == Some(i as int));
                }
                let t = Token { key: name, desc: desc, kind: kind };
                self.tokens.remove(i);
                self.tokens.insert(i, t);
                proof {
                    assert(self@ =~= old(self)@.update(i as int, t));
                }
                return ;
            }
            i = i + 1;
        }
        proof {
            lemma_find_key(old(self)@, name@);
            assert(find_key(old(self)@, name@) is None);
        }
        self.tokens.push(Token { key: name, desc: desc, kind: kind });
    }

    /// All registered (key, description) pairs, in registration order. The
    /// order carries no meaning for resolution semantics.
    pub fn describe(&self) -> (r: Vec<(String, String)>)
        ensures
            r@.len() == self@.len(),
            forall|i: int|
                0 <= i < r@.len() ==> (#[trigger] r@[i]).0@ == self@[i].key@ && r@[i].1@
                    == self@[i].desc@,
    {
        let mut out: Vec<(String, String)> = Vec::new();
        let n = self.tokens.len();
        let mut i: usize = 0;
        while i < n
            invariant
                n == self.tokens@.len(),
                0 <= i <= n,
                out@.len() == i,
                forall|k: int|
                    0 <= k < i ==> (#[trigger] out@[k]).0@ == self.tokens@[k].key@ && out@[k].1@
                        == self.tokens@[k].desc@,
            decreases n - i,
        {
            let t = &self.tokens[i];
            out.push((t.key.clone(), t.desc.clone()));
            i = i + 1;
        }
        out
    }

    /// Resolves a template for one file: propagates a metadata failure, and
    /// otherwise folds every registered token over the template.
    pub fn format(&self, fmt: &str, ent: &EntryInfo, exif: &Result<CaptureDate, ExtractError>) -> (r:
        Result<String, ExtractError>)
        ensures
            exif matches Ok(d) ==> r matches Ok(s) && s@ == apply_tokens(self@, fmt@, *d, *ent),
            exif matches Err(e) ==> r == Err::<String, ExtractError>(*e),
    {
        match exif {
            Err(e) => Err(*e),
            Ok(d) => {
                let mut acc = fmt.to_owned();
                let n = self.tokens.len();
                proof {
                    assert(self@.subrange(0, n as int) =~= self@);
                }
                let mut idx: usize = 0;
                while idx < n
                    invariant
                        n == self.tokens@.len(),
                        0 <= idx <= n,
                        apply_tokens(self.tokens@.subrange(idx as int, n as int), acc@, *d, *ent)
                            == apply_tokens(self.tokens@, fmt@, *d, *ent),
                    decreases n - idx,
                {
                    let tok = &self.tokens[idx];
                    let val = tok.kind.resolve(d, ent);
                    let next = replace_all_str(acc.as_str(), tok.key.as_str(), val.as_str());
                    proof {
                        let sub = self.tokens@.subrange(idx as int, n as int);
                        assert(sub[0] == self.tokens@[idx as int]);
                        assert(sub.drop_first() =~= self.tokens@.subrange(idx + 1, n as int));
                    }
                    acc = next;
                    idx = idx + 1;
                }
                proof {
                    assert(self.tokens@.subrange(n as int, n as int).len() == 0);
                }
                Ok(acc)
            },
        }
    }
}

} // verus!
