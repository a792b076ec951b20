//! Configuration errors: a reason plus the path of keys at which the problem
//! was found, accumulated while parsing unwinds (root at the tail).
use vstd::prelude::*;

verus! {

/// Why a configuration was rejected.
#[derive(Debug, PartialEq)]
pub enum ConfigErrorReason {
    /// A required key was absent.
    MissingKey(String),
    /// A required value was absent.
    Missing,
    /// Any other problem, described in text.
    Generic(String),
}

/// A configuration error with its path context.
#[derive(Debug, PartialEq)]
pub struct ConfigError {
    pub reason: ConfigErrorReason,
    pub context: Vec<String>,
}

/// The views of the context entries, in stored order (root last).
pub open spec fn ctx_rep(v: Seq<String>) -> Seq<Seq<char>> {
    Seq::new(v.len(), |i: int| v[i]@)
}

/// The rendered path of a context: entries from the tail (the root) down to
/// the head (the failing key), joined with dots.
pub open spec fn spec_path(ctx: Seq<Seq<char>>) -> Seq<char>
    decreases ctx.len(),
{
    if ctx.len() == 0 {
        Seq::empty()
    } else if ctx.len() == 1 {
        ctx[0]
    } else {
        ctx.last() + "."@ + spec_path(ctx.drop_last())
    }
}

/// Prepending a deeper key to a non-empty context appends it to the rendered
/// path.
pub proof fn lemma_spec_path_front(s: Seq<Seq<char>>, e: Seq<char>)
    requires
        s.len() >= 1,
    ensures
        spec_path(seq![e] + s) == spec_path(s) + "."@ + e,
    decreases s.len(),
{
    let t = seq![e] + s;
    if s.len() == 1 {
        assert(t.drop_last() =~= seq![e]);
        assert(t.last() == s[0]);
        assert(seq![e][0] == e);
        assert(spec_path(seq![e]) == e);
        assert(spec_path(t) == s[0] + "."@ + e);
        assert(spec_path(s) == s[0]);
    } else {
        assert(t.drop_last() =~= seq![e] + s.drop_last());
        lemma_spec_path_front(s.drop_last(), e);
        assert(t.last() == s.last());
        assert(spec_path(t) == s.last() + "."@ + (spec_path(s.drop_last()) + "."@ + e));
        assert(s.last() + "."@ + (spec_path(s.drop_last()) + "."@ + e) =~= (s.last() + "."@
            + spec_path(s.drop_last())) + "."@ + e);
    }
}

impl ConfigErrorReason {
    /// The message for this reason.
    pub open spec fn spec_message(self) -> Seq<char> {
        match self {
            ConfigErrorReason::Generic(msg) => msg@,
            ConfigErrorReason::MissingKey(key) => "Missing config key `"@ + key@ + "`"@,
            ConfigErrorReason::Missing => "Missing config value"@,
        }
    }
}

impl ConfigError {
    /// The rendered error: the message, then the path when there is one.
    pub open spec fn spec_render(self) -> Seq<char> {
        if self.context@.len() == 0 {
            self.reason.spec_message()
        } else {
            self.reason.spec_message() + " in config: `"@ + spec_path(ctx_rep(self.context@))
                + "`"@
        }
    }

    /// An error with the given message and no context.
    pub fn new(message: String) -> (r: ConfigError)
        ensures
            r.reason == ConfigErrorReason::Generic(message),
            r.context@.len() == 0,
    {
        ConfigError { reason: ConfigErrorReason::Generic(message), context: Vec::new() }
    }

    /// A missing-key error for `key`, with no context.
    pub fn missing_key(key: &str) -> (r: ConfigError)
        ensures
            r.reason matches ConfigErrorReason::MissingKey(k) && k@ == key@,
            r.context@.len() == 0,
    {
        ConfigError { reason: ConfigErrorReason::MissingKey(key.to_owned()), context: Vec::new() }
    }

    /// A missing-value error, with no context.
    pub fn missing() -> (r: ConfigError)
        ensures
            r.reason == ConfigErrorReason::Missing,
            r.context@.len() == 0,
    {
        ConfigError { reason: ConfigErrorReason::Missing, context: Vec::new() }
    }

    /// Push one more path element; elements arrive deepest-first, so the
    /// root ends up at the tail.
    pub fn annotate(&mut self, key: String)
        ensures
            final(self).reason == old(self).reason,
            final(self).context@ == old(self).context@.push(key),
    {
        self.context.push(key);
    }

    /// The message for this error's reason.
    fn message(&self) -> (r: String)
        ensures
            r@ == self.reason.spec_message(),
    {
        match &self.reason {
            ConfigErrorReason::Generic(msg) => msg.clone(),
            ConfigErrorReason::MissingKey(key) => {
                let mut s = "Missing config key `".to_owned();
                s.append(key.as_str());
                s.append("`");
                s
            },
            ConfigErrorReason::Missing => "Missing config value".to_owned(),
        }
    }

    /// The rendered error text.
    pub fn render(&self) -> (r: String)
        ensures
            r@ == self.spec_render(),
    {
        let mut s = self.message();
        let n = self.context.len();
        if n == 0 {
            return s;
        }
        s.append(" in config: `");
        let ghost ctx = ctx_rep(self.context@);
        s.append(self.context[n - 1].as_str());
        proof {
            assert(ctx.subrange(n - 1, n as int) =~= seq![ctx[n - 1]]);
        }
        let mut i: usize = n - 1;
        while i > 0
            invariant
                i < n,
                n == self.context@.len(),
                ctx == ctx_rep(self.context@),
                s@ == self.reason.spec_message() + " in config: `"@ + spec_path(
                    ctx.subrange(i as int, n as int),
                ),
            decreases i,
        {
            s.append(".");
            s.append(self.context[i - 1].as_str());
            proof {
                let suffix = ctx.subrange(i as int, n as int);
                lemma_spec_path_front(suffix, ctx[i - 1]);
                assert(ctx.subrange(i - 1, n as int) =~= seq![ctx[i - 1]] + suffix);
                assert(s@ =~= self.reason.spec_message() + " in config: `"@ + spec_path(
                    ctx.subrange(i - 1, n as int),
                ));
            }
            i -= 1;
        }
        s.append("`");
        proof {
            assert(ctx.subrange(0, n as int) =~= ctx);
        }
        s
    }
}

impl Clone for ConfigError {
    /// The clone renders the same.
    fn clone(&self) -> (r: Self)
        ensures
            r.spec_render() == self.spec_render(),
    {
        let reason = match &self.reason {
            ConfigErrorReason::Generic(msg) => ConfigErrorReason::Generic(msg.clone()),
            ConfigErrorReason::MissingKey(key) => ConfigErrorReason::MissingKey(key.clone()),
            ConfigErrorReason::Missing => ConfigErrorReason::Missing,
        };
        let mut context: Vec<String> = Vec::new();
        let n = self.context.len();
        let mut i: usize = 0;
        while i < n
            invariant
                i <= n,
                n == self.context@.len(),
                context@.len() == i as int,
                forall|j: int| 0 <= j < i ==> context@[j]@ == self.context@[j]@,
            decreases n - i,
    {
            context.push(self.context[i].clone());
            i += 1;
        }
        let r = ConfigError { reason, context };
        proof {
            assert(ctx_rep(r.context@) =~= ctx_rep(self.context@));
            assert(r.reason.spec_message() == self.reason.spec_message());
        }
        r
    }
}

} // verus!
