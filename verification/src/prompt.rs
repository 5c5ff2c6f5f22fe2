//! The interactive shell's pure core: whitespace tokenization of an input
//! line, the command registry, and the dispatch decision for one line.
//!
//! Reading input, logging, and actually invoking a handler are side effects
//! that the surrounding program performs; here a handler is an opaque value
//! of the caller's choosing (for example an index into a handler table), and
//! `execute` returns the decision the shell must act on.

use vstd::prelude::*;

verus! {

/// The characters the tokenizer treats as separators: the Unicode
/// `White_Space` set, the same set `str::split_whitespace` splits on.
pub open spec fn is_space_char(c: char) -> bool {
    ||| c as u32 == 0x20
    ||| 0x09 <= c as u32 && c as u32 <= 0x0D
    ||| c as u32 == 0x85
    ||| c as u32 == 0xA0
    ||| c as u32 == 0x1680
    ||| 0x2000 <= c as u32 && c as u32 <= 0x200A
    ||| c as u32 == 0x2028
    ||| c as u32 == 0x2029
    ||| c as u32 == 0x202F
    ||| c as u32 == 0x205F
    ||| c as u32 == 0x3000
}

/// Executable test for `is_space_char`.
pub fn is_space(c: char) -> (r: bool)
    ensures
        r == is_space_char(c),
{
    let u = c as u32;
    u == 0x20 || (0x09 <= u && u <= 0x0D) || u == 0x85 || u == 0xA0 || u == 0x1680 || (0x2000 <= u
        && u <= 0x200A) || u == 0x2028 || u == 0x2029 || u == 0x202F || u == 0x205F || u == 0x3000
}

/// The tokens of `s` read left to right, with `cur` the word gathered so
/// far: a separator closes the current word, any other character extends it.
pub open spec fn tokens_from(s: Seq<char>, cur: Seq<char>) -> Seq<Seq<char>>
    decreases s.len(),
{
    if s.len() == 0 {
        if cur.len() == 0 {
            Seq::empty()
        } else {
            seq![cur]
        }
    } else if is_space_char(s[0]) {
        if cur.len() == 0 {
            tokens_from(s.drop_first(), Seq::empty())
        } else {
            seq![cur] + tokens_from(s.drop_first(), Seq::empty())
        }
    } else {
        tokens_from(s.drop_first(), cur.push(s[0]))
    }
}

/// The whitespace-separated tokens of a line: the ordered sequence of its
/// maximal runs of non-separator characters.
pub open spec fn tokens_of(s: Seq<char>) -> Seq<Seq<char>> {
    tokens_from(s, Seq::empty())
}

/// The word currently being gathered at position `i`: the characters from
/// `start` (if a word is open) up to `i`.
spec fn pending(s: Seq<char>, start: Option<usize>, i: int) -> Seq<char> {
    match start {
        Some(st) => s.subrange(st as int, i),
        None => Seq::empty(),
    }
}

/// Splits a raw input line into its whitespace-separated tokens; leading and
/// trailing separators yield nothing, and an all-separator line yields an
/// empty sequence.
pub fn tokenize(input: &str) -> (tokens: Vec<String>)
    ensures
        tokens.deep_view() == tokens_of(input@),
{
    let n = input.unicode_len();
    let mut tokens: Vec<String> = Vec::new();
    let mut i: usize = 0;
    let mut start: Option<usize> = None;
    proof {
        assert(input@.subrange(0, n as int) =~= input@);
        assert(tokens.deep_view() =~= Seq::<Seq<char>>::empty());
        assert(tokens.deep_view() + tokens_from(input@, Seq::<char>::empty()) =~= tokens_of(
            input@,
        ));
    }
    while i < n
        invariant
            n as nat == input@.len(),
            i <= n,
            match start {
                Some(st) => st < i,
                None => true,
            },
            tokens_of(input@) == tokens.deep_view() + tokens_from(
                input@.subrange(i as int, n as int),
                pending(input@, start, i as int),
            ),
        decreases n - i,
    {
        let ghost s = input@;
        let ghost rem = s.subrange(i as int, n as int);
        let ghost cur = pending(s, start, i as int);
        let c = input.get_char(i);
        proof {
            assert(rem[0] == s[i as int]);
            assert(rem.drop_first() =~= s.subrange(i as int + 1, n as int));
        }
        if is_space(c) {
            match start {
                Some(st) => {
                    let tok: String = input.substring_char(st, i).to_owned();
                    let ghost old_views = tokens.deep_view();
                    tokens.push(tok);
                    start = None;
                    proof {
                        assert(cur.len() > 0);
                        assert(tokens_from(rem, cur) == seq![cur] + tokens_from(
                            rem.drop_first(),
                            Seq::<char>::empty(),
                        ));
                        assert(tokens.deep_view() =~= old_views.push(cur));
                        assert(old_views + (seq![cur] + tokens_from(
                            rem.drop_first(),
                            Seq::<char>::empty(),
                        )) =~= tokens.deep_view() + tokens_from(
                            rem.drop_first(),
                            Seq::<char>::empty(),
                        ));
                    }
                },
                None => {
                    proof {
                        assert(tokens_from(rem, cur) == tokens_from(
                            rem.drop_first(),
                            Seq::<char>::empty(),
                        ));
                    }
                },
            }
        } else {
            match start {
                Some(st) => {
                    proof {
                        assert(tokens_from(rem, cur) == tokens_from(
                            rem.drop_first(),
                            cur.push(s[i as int]),
                        ));
                        assert(s.subrange(st as int, i as int + 1) =~= cur.push(s[i as int]));
                    }
                },
                None => {
                    start = Some(i);
                    proof {
                        assert(tokens_from(rem, cur) == tokens_from(
                            rem.drop_first(),
                            cur.push(s[i as int]),
                        ));
                        assert(s.subrange(i as int, i as int + 1) =~= cur.push(s[i as int]));
                    }
                },
            }
        }
        i = i + 1;
    }
    let ghost s = input@;
    proof {
        assert(s.subrange(i as int, n as int) =~= Seq::<char>::empty());
    }
    match start {
        Some(st) => {
            let ghost cur = pending(s, start, i as int);
            let tok: String = input.substring_char(st, n).to_owned();
            let ghost old_views = tokens.deep_view();
            tokens.push(tok);
            proof {
                assert(cur.len() > 0);
                assert(tokens_from(Seq::<char>::empty(), cur) == seq![cur]);
                assert(tokens.deep_view() =~= old_views.push(cur));
                assert(old_views + seq![cur] =~= tokens.deep_view());
            }
        },
        None => {
            proof {
                assert(tokens_from(Seq::<char>::empty(), Seq::<char>::empty())
                    == Seq::<Seq<char>>::empty());
                assert(tokens.deep_view() + Seq::<Seq<char>>::empty() =~= tokens.deep_view());
            }
        },
    }
    tokens
}

/// The registry's mathematical content: the map each name-to-handler list
/// denotes, later entries overriding earlier ones.
spec fn registry_map<H>(entries: Seq<(String, H)>) -> Map<Seq<char>, H>
    decreases entries.len(),
{
    if entries.len() == 0 {
        Map::empty()
    } else {
        registry_map(entries.drop_last()).insert(entries.last().0@, entries.last().1)
    }
}

/// The mapping from command name to handler. A handler is an opaque value
/// chosen by the caller (say, an index into a table of closures); at most
/// one handler is bound per name, and re-registering a name replaces its
/// binding.
pub struct CommandHandler<H> {
    commands: Vec<(String, H)>,
}

impl<H> View for CommandHandler<H> {
    type V = Map<Seq<char>, H>;

    closed spec fn view(&self) -> Map<Seq<char>, H> {
        registry_map(self.commands@)
    }
}

/// What the shell must do with one input line.
pub enum Dispatch<H> {
    /// The line held only whitespace: no action, no diagnostic.
    Empty,
    /// The first token named a registered command: invoke this handler with
    /// these arguments.
    Invoke(H, Vec<String>),
    /// The first token named no registered command: report it.
    Unknown(String),
}

impl<H> CommandHandler<H> {
    /// Creates an empty registry.
    pub fn new() -> (r: Self)
        ensures
            r@ == Map::<Seq<char>, H>::empty(),
    {
        let r = CommandHandler { commands: Vec::new() };
        proof {
            assert(r.commands@.len() == 0);
        }
        r
    }

    /// Binds `handler` to `command`, silently replacing any earlier binding
    /// of the same name: the last registration wins.
    pub fn register_command(&mut self, command: &str, handler: H)
        ensures
            final (self)@ == old(self)@.insert(command@, handler),
    {
        let name: String = command.to_owned();
        self.commands.push((name, handler));
        proof {
            assert(self.commands@.drop_last() =~= old(self).commands@);
            assert(self.commands@.last().0@ == command@);
        }
    }
}

impl<H: Copy> CommandHandler<H> {
    /// Returns the handler bound to `name`, or nothing when no registration
    /// bound it.
    pub fn lookup(&self, name: &str) -> (r: Option<H>)
        ensures
            match r {
                Some(h) => self@.contains_key(name@) && self@[name@] == h,
                None => !self@.contains_key(name@),
            },
    {
        let ghost full = self.commands@;
        let n = self.commands.len();
        let mut i: usize = n;
        proof {
            assert(full.subrange(0, n as int) =~= full);
        }
        while i > 0
            invariant
                i <= n,
                n == self.commands@.len(),
                full == self.commands@,
                registry_map(full).contains_key(name@) == registry_map(
                    full.subrange(0, i as int),
                ).contains_key(name@),
                registry_map(full).contains_key(name@) ==> registry_map(
                    full.subrange(0, i as int),
                )[name@] == registry_map(full)[name@],
            decreases i,
        {
            i = i - 1;
            let ghost longer = full.subrange(0, i as int + 1);
            let ghost shorter = full.subrange(0, i as int);
            proof {
                assert(longer.drop_last() =~= shorter);
                assert(longer.last() == full[i as int]);
            }
            if compare_names(&self.commands[i].0, name) {
                return Some(self.commands[i].1);
            }
        }
        proof {
            assert(full.subrange(0, 0) =~= Seq::<(String, H)>::empty());
        }
        None
    }

    /// Decides what one raw input line asks for: nothing when the line is
    /// all whitespace; otherwise its first token is the command name and the
    /// remaining tokens are the arguments, handed to the registered handler
    /// when the name is bound and reported as unknown when it is not.
    pub fn execute(&self, input: &str) -> (r: Dispatch<H>)
        ensures
            ({
                let toks = tokens_of(input@);
                match r {
                    Dispatch::Empty => toks.len() == 0,
                    Dispatch::Invoke(h, args) => toks.len() > 0 && self@.contains_key(toks[0])
                        && self@[toks[0]] == h && args.deep_view() == toks.drop_first(),
                    Dispatch::Unknown(name) => toks.len() > 0 && !self@.contains_key(toks[0])
                        && name@ == toks[0],
                }
            }),
    {
        let mut tokens = tokenize(input);
        let ghost toks = tokens_of(input@);
        if tokens.len() == 0 {
            proof {
                assert(toks.len() == tokens.deep_view().len());
            }
            Dispatch::Empty
        } else {
            let name = tokens.remove(0);
            proof {
                assert(name@ == toks[0]);
                assert(tokens.deep_view() =~= toks.drop_first());
            }
            match self.lookup(name.as_str()) {
                Some(h) => Dispatch::Invoke(h, tokens),
                None => Dispatch::Unknown(name),
            }
        }
    }
}

/// True exactly when the stored command name reads as `name`.
fn compare_names(stored: &String, name: &str) -> (r: bool)
    ensures
        r == (stored@ == name@),
{
    let key: String = name.to_owned();
    *stored == key
}

/// What the `show` command should list, decided from its argument tokens.
#[derive(Debug, PartialEq, Eq)]
pub enum ShowTarget {
    /// The first argument was `payloads`: list the payload directory.
    Payloads,
    /// The first argument was `exploits`: list the exploit directory.
    Exploits,
    /// No argument, or an unrecognized one: show how to use the command.
    Usage,
}

/// Decides which directory the `show` command's arguments select: the first
/// argument alone decides, and anything but the two known targets asks for
/// the usage hint.
pub fn show_target(args: &Vec<String>) -> (r: ShowTarget)
    ensures
        (r == ShowTarget::Payloads) <==> (args@.len() > 0 && args@[0]@ == "payloads"@),
        (r == ShowTarget::Exploits) <==> (args@.len() > 0 && args@[0]@ == "exploits"@),
        (r == ShowTarget::Usage) <==> (args@.len() == 0 || (args@[0]@ != "payloads"@
            && args@[0]@ != "exploits"@)),
{
    proof {
        reveal_strlit("payloads");
        reveal_strlit("exploits");
        assert("payloads"@[0] != "exploits"@[0]);
        assert("payloads"@ != "exploits"@);
    }
    if args.len() > 0 {
        if compare_names(&args[0], "payloads") {
            ShowTarget::Payloads
        } else if compare_names(&args[0], "exploits") {
            ShowTarget::Exploits
        } else {
            ShowTarget::Usage
        }
    } else {
        ShowTarget::Usage
    }
}

/// Last write wins: once `handler` is registered under `name`, looking
/// `name` up in the registry's mapping yields exactly `handler`, and every
/// other name keeps the binding (or absence) it had before.
pub proof fn lemma_register_last_write_wins<H>(
    m: Map<Seq<char>, H>,
    name: Seq<char>,
    handler: H,
    other: Seq<char>,
)
    ensures
        m.insert(name, handler).contains_key(name),
        m.insert(name, handler)[name] == handler,
        other != name ==> m.insert(name, handler).contains_key(other) == m.contains_key(other),
        other != name && m.contains_key(other) ==> m.insert(name, handler)[other] == m[other],
{
}

proof fn lemma_tokens_from_all_space(s: Seq<char>)
    requires
        forall|k: int| 0 <= k < s.len() ==> is_space_char(s[k]),
    ensures
        tokens_from(s, Seq::empty()) == Seq::<Seq<char>>::empty(),
    decreases s.len(),
{
    if s.len() > 0 {
        assert(is_space_char(s[0]));
        assert(forall|k: int| 0 <= k < s.drop_first().len() ==> is_space_char(
            #[trigger] s.drop_first()[k],
        ));
        lemma_tokens_from_all_space(s.drop_first());
    }
}

/// A line of nothing but whitespace has no tokens at all, so dispatching it
/// can neither invoke a handler nor report an unknown command.
pub proof fn lemma_whitespace_line_has_no_tokens(s: Seq<char>)
    requires
        forall|k: int| 0 <= k < s.len() ==> is_space_char(s[k]),
    ensures
        tokens_of(s).len() == 0,
{
    lemma_tokens_from_all_space(s);
}

proof fn lemma_tokens_from_trailing_space(ws: Seq<char>, cur: Seq<char>)
    requires
        cur.len() > 0,
        forall|k: int| 0 <= k < ws.len() ==> is_space_char(ws[k]),
    ensures
        tokens_from(ws, cur) == seq![cur],
    decreases ws.len(),
{
    if ws.len() == 0 {
    } else {
        assert(forall|k: int| 0 <= k < ws.drop_first().len() ==> is_space_char(
            #[trigger] ws.drop_first()[k],
        ));
        lemma_tokens_from_all_space(ws.drop_first());
        assert(seq![cur] + Seq::<Seq<char>>::empty() =~= seq![cur]);
    }
}

proof fn lemma_tokens_from_word(word: Seq<char>, ws: Seq<char>, cur: Seq<char>)
    requires
        cur.len() + word.len() > 0,
        forall|k: int| 0 <= k < word.len() ==> !is_space_char(word[k]),
        forall|k: int| 0 <= k < ws.len() ==> is_space_char(ws[k]),
    ensures
        tokens_from(word + ws, cur) == seq![cur + word],
    decreases word.len(),
{
    if word.len() == 0 {
        assert(word + ws =~= ws);
        lemma_tokens_from_trailing_space(ws, cur);
        assert(cur + word =~= cur);
    } else {
        let s = word + ws;
        assert(s.len() > 0 && s[0] == word[0]);
        assert(s.drop_first() =~= word.drop_first() + ws);
        assert(forall|k: int| 0 <= k < word.drop_first().len() ==> !is_space_char(
            #[trigger] word.drop_first()[k],
        ));
        lemma_tokens_from_word(word.drop_first(), ws, cur.push(word[0]));
        assert(cur.push(word[0]) + word.drop_first() =~= cur + word);
    }
}

proof fn lemma_tokens_skip_leading_space(ws: Seq<char>, s: Seq<char>)
    requires
        forall|k: int| 0 <= k < ws.len() ==> is_space_char(ws[k]),
    ensures
        tokens_from(ws + s, Seq::empty()) == tokens_from(s, Seq::empty()),
    decreases ws.len(),
{
    if ws.len() == 0 {
        assert(ws + s =~= s);
    } else {
        let t = ws + s;
        assert(t.len() > 0 && t[0] == ws[0]);
        assert(t.drop_first() =~= ws.drop_first() + s);
        assert(forall|k: int| 0 <= k < ws.drop_first().len() ==> is_space_char(
            #[trigger] ws.drop_first()[k],
        ));
        lemma_tokens_skip_leading_space(ws.drop_first(), s);
    }
}

/// Last write wins, seen through dispatch: a line that is `name` with
/// nothing but whitespace around it tokenizes to that one token, so after
/// `earlier` and then `latest` were registered under `name`, the
/// dispatcher's lookup key is `name` itself, the registry holds `latest`
/// for it, and `execute` on such a line can only hand `latest` an empty
/// argument list. A name that is empty or has whitespace inside it is never
/// a single token, so no line can select its handler through dispatch.
pub proof fn lemma_dispatch_selects_last_registration<H>(
    m: Map<Seq<char>, H>,
    leading: Seq<char>,
    name: Seq<char>,
    trailing: Seq<char>,
    earlier: H,
    latest: H,
)
    requires
        name.len() > 0,
        forall|k: int| 0 <= k < name.len() ==> !is_space_char(name[k]),
        forall|k: int| 0 <= k < leading.len() ==> is_space_char(leading[k]),
        forall|k: int| 0 <= k < trailing.len() ==> is_space_char(trailing[k]),
    ensures
        tokens_of(leading + name + trailing) == seq![name],
        m.insert(name, earlier).insert(name, latest).contains_key(name),
        m.insert(name, earlier).insert(name, latest)[name] == latest,
{
    assert(leading + name + trailing =~= leading + (name + trailing));
    lemma_tokens_skip_leading_space(leading, name + trailing);
    lemma_tokens_from_word(name, trailing, Seq::empty());
    assert(Seq::<char>::empty() + name =~= name);
}

} // verus!
