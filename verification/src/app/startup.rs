//! Testable policy for the current-user Windows startup value.
use vstd::prelude::*;

use crate::strings::{chars_of, push_char, push_str, str_eq, string_from};

verus! {

pub const VALUE_NAME: &'static str = "LogiPeek";

/// One call made on a startup store, with what it answered.
pub enum StoreOp {
    Read { name: Seq<char>, answer: Result<Option<Seq<char>>, Seq<char>> },
    Write { target: Seq<char>, data: Seq<char>, outcome: Result<(), Seq<char>> },
    Delete { entry: Seq<char>, result: Result<(), Seq<char>> },
}

pub open spec fn read_view(r: Result<Option<String>, String>) -> Result<Option<Seq<char>>, Seq<char>> {
    match r {
        Ok(Some(data)) => Ok(Some(data@)),
        Ok(None) => Ok(None),
        Err(e) => Err(e@),
    }
}

pub open spec fn unit_view(r: Result<(), String>) -> Result<(), Seq<char>> {
    match r {
        Ok(()) => Ok(()),
        Err(e) => Err(e@),
    }
}

/// Where the startup command is kept (the current user's Run key on Windows).
pub trait StartupStore {
    fn read(&mut self, value: &str) -> Result<Option<String>, String>;

    fn write(&mut self, value: &str, data: &str) -> Result<(), String>;

    fn delete(&mut self, value: &str) -> Result<(), String>;
}

/// A startup store together with the record of every call made on it.
pub struct RecordedStore<S> {
    pub inner: S,
    log: Ghost<Seq<StoreOp>>,
}

impl<S: StartupStore> RecordedStore<S> {
    pub fn new(inner: S) -> (r: Self)
        ensures
            r.ops() == Seq::<StoreOp>::empty(),
    {
        RecordedStore { inner, log: Ghost(Seq::empty()) }
    }

    /// Every call made on this store so far, oldest first, with its answer.
    pub closed spec fn ops(&self) -> Seq<StoreOp> {
        self.log@
    }

    pub fn read(&mut self, value: &str) -> (r: Result<Option<String>, String>)
        ensures
            final(self).ops() == old(self).ops().push(StoreOp::Read { name: value@, answer: read_view(r) }),
    {
        let r = self.inner.read(value);
        proof {
            self.log@ = self.log@.push(StoreOp::Read { name: value@, answer: read_view(r) });
        }
        r
    }

    pub fn write(&mut self, value: &str, data: &str) -> (r: Result<(), String>)
        ensures
            final(self).ops() == old(self).ops().push(
                StoreOp::Write { target: value@, data: data@, outcome: unit_view(r) },
            ),
    {
        let r = self.inner.write(value, data);
        proof {
            self.log@ = self.log@.push(StoreOp::Write { target: value@, data: data@, outcome: unit_view(r) });
        }
        r
    }

    pub fn delete(&mut self, value: &str) -> (r: Result<(), String>)
        ensures
            final(self).ops() == old(self).ops().push(StoreOp::Delete { entry: value@, result: unit_view(r) }),
    {
        let r = self.inner.delete(value);
        proof {
            self.log@ = self.log@.push(StoreOp::Delete { entry: value@, result: unit_view(r) });
        }
        r
    }
}

pub open spec fn repeat(c: char, n: nat) -> Seq<char> {
    Seq::new(n, |_i: int| c)
}

/// The quoted body of `chars` when `pending` backslashes precede it: backslashes are doubled
/// before a quote (which is itself escaped) and before the closing quote, and kept as they are
/// elsewhere.
pub open spec fn quote_body(chars: Seq<char>, pending: nat) -> Seq<char>
    decreases chars.len(),
{
    if chars.len() == 0 {
        repeat('\\', 2 * pending)
    } else if chars[0] == '\\' {
        quote_body(chars.drop_first(), pending + 1)
    } else if chars[0] == '"' {
        repeat('\\', 2 * pending + 1) + seq![chars[0]] + quote_body(chars.drop_first(), 0)
    } else {
        repeat('\\', pending) + seq![chars[0]] + quote_body(chars.drop_first(), 0)
    }
}

/// `path` as one argument of a Windows command line.
pub open spec fn spec_quote_windows(path: Seq<char>) -> Seq<char> {
    seq!['"'] + quote_body(path, 0) + seq!['"']
}

pub open spec fn spec_startup_command(exe: Seq<char>) -> Seq<char> {
    spec_quote_windows(exe) + " --startup"@
}

fn push_repeat(s: &mut String, c: char, n: usize)
    ensures
        final(s)@ == old(s)@ + repeat(c, n as nat),
{
    let mut i: usize = 0;
    while i < n
        invariant
            i <= n,
            s@ == old(s)@ + repeat(c, i as nat),
        decreases n - i,
    {
        push_char(s, c);
        i = i + 1;
        assert(s@ =~= old(s)@ + repeat(c, i as nat));
    }
}

pub fn quote_windows(path: &str) -> (r: String)
    ensures
        r@ == spec_quote_windows(path@),
{
    let chars = chars_of(path);
    let mut quoted = string_from("\"");
    let mut backslashes: usize = 0;
    let mut i: usize = 0;
    proof {
        reveal_strlit("\"");
        assert(chars@.skip(0) =~= chars@);
    }
    while i < chars.len()
        invariant
            i <= chars@.len(),
            backslashes <= i,
            chars@ == path@,
            quoted@ + quote_body(chars@.skip(i as int), backslashes as nat) == seq!['"'] + quote_body(
                chars@,
                0,
            ),
        decreases chars@.len() - i,
    {
        let c = chars[i];
        let ghost rest = chars@.skip(i as int);
        assert(rest.drop_first() =~= chars@.skip(i + 1));
        assert(rest[0] == c);
        if c == '\\' {
            assert(quote_body(rest, backslashes as nat) == quote_body(
                rest.drop_first(),
                backslashes as nat + 1,
            ));
            backslashes = backslashes + 1;
        } else {
            let ghost before = quoted@;
            let ghost pending = backslashes as nat;
            if c == '"' {
                push_repeat(&mut quoted, '\\', backslashes);
                push_repeat(&mut quoted, '\\', backslashes);
                push_char(&mut quoted, '\\');
                assert(repeat('\\', pending) + repeat('\\', pending) + seq!['\\'] =~= repeat(
                    '\\',
                    2 * pending + 1,
                ));
                assert(quote_body(rest, pending) == repeat('\\', 2 * pending + 1) + seq![c]
                    + quote_body(rest.drop_first(), 0));
            } else {
                push_repeat(&mut quoted, '\\', backslashes);
                assert(quote_body(rest, pending) == repeat('\\', pending) + seq![c] + quote_body(
                    rest.drop_first(),
                    0,
                ));
            }
            push_char(&mut quoted, c);
            backslashes = 0;
            assert(quoted@ + quote_body(chars@.skip(i + 1), 0) =~= before + quote_body(rest, pending));
        }
        i = i + 1;
    }
    push_repeat(&mut quoted, '\\', backslashes);
    push_repeat(&mut quoted, '\\', backslashes);
    push_char(&mut quoted, '"');
    proof {
        assert(chars@.skip(chars@.len() as int) =~= Seq::<char>::empty());
        assert(repeat('\\', backslashes as nat) + repeat('\\', backslashes as nat) =~= repeat(
            '\\',
            2 * backslashes as nat,
        ));
    }
    quoted
}

pub fn startup_command(exe: &str) -> (r: String)
    ensures
        r@ == spec_startup_command(exe@),
{
    let mut command = quote_windows(exe);
    push_str(&mut command, " --startup");
    command
}

/// Whether the store already holds the command for `exe`, as read once.
pub open spec fn spec_is_current(reply: Result<Option<Seq<char>>, Seq<char>>, exe: Seq<char>) -> Result<bool, Seq<char>> {
    match reply {
        Ok(data) => Ok(data == Some(spec_startup_command(exe))),
        Err(e) => Err(e),
    }
}

pub open spec fn bool_view(r: Result<bool, String>) -> Result<bool, Seq<char>> {
    match r {
        Ok(b) => Ok(b),
        Err(e) => Err(e@),
    }
}

pub fn is_current<S: StartupStore>(store: &mut RecordedStore<S>, exe: &str) -> (r: Result<bool, String>)
    ensures
        final(store).ops().len() == old(store).ops().len() + 1,
        final(store).ops().drop_last() == old(store).ops(),
        final(store).ops().last() matches StoreOp::Read { name, answer } && name == VALUE_NAME@
            && bool_view(r) == spec_is_current(answer, exe@),
{
    let data = store.read(VALUE_NAME)?;
    let command = startup_command(exe);
    match data {
        Some(data) => Ok(str_eq(data.as_str(), command.as_str())),
        None => Ok(false),
    }
}

/// Writes the startup command unless the store already holds exactly that command.
pub fn enable<S: StartupStore>(store: &mut RecordedStore<S>, exe: &str) -> (r: Result<(), String>)
    ensures
        ({
            let before = old(store).ops();
            let after = final(store).ops();
            &&& after.len() > before.len()
            &&& after.take(before.len() as int) == before
            &&& after[before.len() as int] matches StoreOp::Read { name, answer } && name
                == VALUE_NAME@ && match answer {
                Err(e) => after.len() == before.len() + 1 && unit_view(r) == Err::<(), Seq<char>>(e),
                Ok(data) => if data == Some(spec_startup_command(exe@)) {
                    after.len() == before.len() + 1 && r is Ok
                } else {
                    &&& after.len() == before.len() + 2
                    &&& after.last() matches StoreOp::Write { target, data, outcome } && target
                        == VALUE_NAME@ && data == spec_startup_command(exe@) && unit_view(r) == outcome
                },
            }
        }),
{
    let ghost before = store.ops();
    let command = startup_command(exe);
    let current = store.read(VALUE_NAME)?;
    let unchanged = match &current {
        Some(data) => str_eq(data.as_str(), command.as_str()),
        None => false,
    };
    if !unchanged {
        store.write(VALUE_NAME, command.as_str())?;
    }
    Ok(())
}

pub fn disable<S: StartupStore>(store: &mut RecordedStore<S>) -> (r: Result<(), String>)
    ensures
        final(store).ops() == old(store).ops().push(StoreOp::Delete { entry: VALUE_NAME@, result: unit_view(r) }),
{
    store.delete(VALUE_NAME)
}

/// How a Windows program reads the text after an argument's opening quote, with `pending`
/// backslashes already seen: `2n` backslashes before a quote give `n` and the quote closes the
/// argument, `2n + 1` give `n` and a literal quote, and backslashes elsewhere are literal.
/// `None` when the argument is not closed by a quote at the very end.
pub open spec fn read_quoted(s: Seq<char>, pending: nat) -> Option<Seq<char>>
    decreases s.len(),
{
    if s.len() == 0 {
        None
    } else if s[0] == '\\' {
        read_quoted(s.drop_first(), pending + 1)
    } else if s[0] == '"' && pending % 2 == 0 {
        if s.len() == 1 {
            Some(repeat('\\', pending / 2))
        } else {
            None
        }
    } else {
        let literal = if s[0] == '"' {
            repeat('\\', ((pending - 1) / 2) as nat)
        } else {
            repeat('\\', pending)
        };
        match read_quoted(s.drop_first(), 0) {
            Some(rest) => Some(literal + seq![s[0]] + rest),
            None => None,
        }
    }
}

/// The single argument a Windows program reads from a command-line word that starts with a
/// quote.
pub open spec fn windows_quoted_argument(word: Seq<char>) -> Option<Seq<char>> {
    if word.len() > 0 && word[0] == '"' {
        read_quoted(word.drop_first(), 0)
    } else {
        None
    }
}

proof fn lemma_read_backslashes(k: nat, s: Seq<char>, pending: nat)
    ensures
        read_quoted(repeat('\\', k) + s, pending) == read_quoted(s, pending + k),
    decreases k,
{
    if k > 0 {
        let t = repeat('\\', k) + s;
        assert(t[0] == '\\');
        assert(t.drop_first() =~= repeat('\\', (k - 1) as nat) + s);
        lemma_read_backslashes((k - 1) as nat, s, pending + 1);
    } else {
        assert(repeat('\\', 0) + s =~= s);
    }
}

proof fn lemma_quote_body_reads_back(chars: Seq<char>, pending: nat)
    ensures
        read_quoted(quote_body(chars, pending) + seq!['"'], 0) == Some(repeat('\\', pending) + chars),
    decreases chars.len(),
{
    let end = seq!['"'];
    if chars.len() == 0 {
        lemma_read_backslashes(2 * pending, end, 0);
        assert(repeat('\\', pending) + chars =~= repeat('\\', pending));
    } else {
        let c = chars[0];
        let rest = chars.drop_first();
        if c == '\\' {
            lemma_quote_body_reads_back(rest, pending + 1);
            assert(repeat('\\', pending + 1) + rest =~= repeat('\\', pending) + chars);
        } else {
            lemma_quote_body_reads_back(rest, 0);
            assert(repeat('\\', 0) + rest =~= rest);
            let n: nat = if c == '"' {
                2 * pending + 1
            } else {
                pending
            };
            let tail = seq![c] + quote_body(rest, 0) + end;
            assert(quote_body(chars, pending) + end =~= repeat('\\', n) + tail);
            lemma_read_backslashes(n, tail, 0);
            assert(tail[0] == c);
            assert(tail.drop_first() =~= quote_body(rest, 0) + end);
            if c == '"' {
                assert(((n - 1) / 2) as nat == pending);
            }
            assert(repeat('\\', pending) + seq![c] + rest =~= repeat('\\', pending) + chars);
        }
    }
}

/// `quote_windows` gives one word that starts and ends with a quote, and a Windows program
/// reading that word as an argument gets exactly `path` back.
pub proof fn law_quoted_path_reads_back(path: Seq<char>)
    ensures
        spec_quote_windows(path).len() >= 2,
        spec_quote_windows(path)[0] == '"',
        spec_quote_windows(path).last() == '"',
        windows_quoted_argument(spec_quote_windows(path)) == Some(path),
{
    let q = spec_quote_windows(path);
    lemma_quote_body_reads_back(path, 0);
    assert(q.drop_first() =~= quote_body(path, 0) + seq!['"']);
    assert(repeat('\\', 0) + path =~= path);
}

} // verus!
