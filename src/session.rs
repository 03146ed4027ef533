//! The shell conversation: the banner check, the response collector's
//! decisions, and the normalizer that strips terminal artifacts.
use crate::text::{chars_of, is_lit, remove_all, remove_lit, same, split, split_chars, string_of, trim, trim_chars};
use vstd::prelude::*;

verus! {

/// The banner a fresh shell starts with: cursor home, clear screen, NUL.
pub open spec fn banner() -> Seq<u8> {
    seq![27u8, 91u8, 72u8, 27u8, 91u8, 74u8, 0u8]
}

/// Whether the first bytes the shell sent are the expected banner.
pub fn banner_ok(b: &[u8]) -> (r: bool)
    ensures
        r == (b@ == banner()),
{
    if b.len() != 7 {
        return false;
    }
    let r = b[0] == 27 && b[1] == 91 && b[2] == 72 && b[3] == 27 && b[4] == 91 && b[5] == 74 && b[6]
        == 0;
    assert(r ==> b@ =~= banner());
    proof {
        if b@ == banner() {
            assert(b@[0] == 27 && b@[6] == 0);
        }
    }
    r
}

/// What a read that timed out means.
#[derive(Clone, Copy, Debug, PartialEq, Eq, Structural)]
pub enum Action {
    /// Keep reading.
    Read,
    /// A page ended: send one space to get the next one, then keep reading.
    SendSpace,
    /// The prompt came back: the response is complete.
    Finish,
    /// The output ended in something unexpected.
    Reject,
    /// Reading failed for another reason.
    Abort,
}

/// What the collector is told after each read attempt.
pub enum Event {
    /// Some bytes arrived, decoded to text.
    Data(String),
    /// No bytes arrived within the read deadline.
    Timeout,
    /// The read failed otherwise.
    Failed,
}

/// The decision after a timeout: look at the last line of what was read.
pub open spec fn timeout_action(data: Seq<char>, prompt: Seq<char>) -> Action {
    let lines = split(data, "\n"@);
    let last = trim(lines.last());
    if last == trim(prompt) {
        Action::Finish
    } else if last == "--More--"@ {
        Action::SendSpace
    } else {
        Action::Reject
    }
}

/// After a timeout, output whose last line, trimmed, is neither the prompt
/// nor the pager marker is rejected; the collector asks for no more reads.
pub proof fn lemma_unexpected_tail_rejected(data: Seq<char>, prompt: Seq<char>)
    requires
        trim(split(data, "\n"@).last()) != trim(prompt),
        trim(split(data, "\n"@).last()) != "--More--"@,
    ensures
        timeout_action(data, prompt) == Action::Reject,
{
}

/// Collects one response from the shell, paging through `--More--` screens.
pub struct Collector {
    pub prompt: String,
    pub data: String,
}

impl Collector {
    pub fn new(prompt: String) -> (r: Collector)
        ensures
            r.prompt@ == prompt@,
            r.data@ == Seq::<char>::empty(),
    {
        Collector { prompt, data: String::new() }
    }

    /// Takes one event and says what to do next. Data is appended; a
    /// timeout is read as the end of a page or of the response.
    pub fn step(&mut self, ev: Event) -> (r: Action)
        ensures
            final(self).prompt@ == old(self).prompt@,
            match ev {
                Event::Data(s) => final(self).data@ == old(self).data@ + s@ && r == Action::Read,
                Event::Timeout => final(self).data@ == old(self).data@ && r == timeout_action(
                    old(self).data@,
                    old(self).prompt@,
                ),
                Event::Failed => final(self).data@ == old(self).data@ && r == Action::Abort,
            },
    {
        match ev {
            Event::Data(s) => {
                self.data.append(s.as_str());
                Action::Read
            },
            Event::Timeout => {
                proof {
                    reveal_strlit("\n");
                }
                let d = chars_of(self.data.as_str());
                let lines = split_chars(d.as_slice(), "\n");
                let ghost lv = lines@.map_values(|x: Vec<char>| x@);
                assert(lv.len() == lines@.len());
                assert(lv.len() > 0) by {
                    crate::text::lemma_split_nonempty(d@, "\n"@, 0, 0);
                }
                let last = trim_chars(lines[lines.len() - 1].as_slice());
                assert(lines[lines.len() - 1]@ == lv.last());
                let p = chars_of(self.prompt.as_str());
                let tp = trim_chars(p.as_slice());
                if same(last.as_slice(), tp.as_slice()) {
                    Action::Finish
                } else if is_lit(last.as_slice(), "--More--") {
                    Action::SendSpace
                } else {
                    Action::Reject
                }
            },
            Event::Failed => Action::Abort,
        }
    }
}

/// `s` with every occurrence of `p` deleted; an empty `p` changes nothing.
pub open spec fn strip(s: Seq<char>, p: Seq<char>) -> Seq<char> {
    if p.len() == 0 {
        s
    } else {
        remove_all(s, p)
    }
}

/// One pass of the normalizer: the prompt, both forms of the pager line and
/// the cursor-up/clear-line sequence are deleted, in that order.
pub open spec fn clean_pass(data: Seq<char>, prompt: Seq<char>) -> Seq<char> {
    let a = strip(data, prompt);
    let b = strip(a, "--More--\n"@);
    let c = strip(b, "--More--\x08\n"@);
    strip(c, "\x1b[A\x1b[2K"@)
}

/// At most `n` passes, stopping at the first that changes nothing.
pub open spec fn normalize_n(data: Seq<char>, prompt: Seq<char>, n: nat) -> Seq<char>
    decreases n,
{
    if n == 0 || clean_pass(data, prompt) == data {
        data
    } else {
        normalize_n(clean_pass(data, prompt), prompt, (n - 1) as nat)
    }
}

/// The normalized response: passes are repeated until one changes nothing.
/// Each pass that changes something shortens the text, so `len + 1` passes
/// always suffice.
pub open spec fn cleaned(data: Seq<char>, prompt: Seq<char>) -> Seq<char> {
    normalize_n(data, prompt, (data.len() + 1) as nat)
}

proof fn lemma_strip_len(s: Seq<char>, p: Seq<char>)
    ensures
        strip(s, p).len() <= s.len(),
        strip(s, p).len() == s.len() ==> strip(s, p) == s,
{
    if p.len() > 0 {
        crate::text::lemma_remove_len(s, p, 0);
        assert(s.subrange(0, s.len() as int) == s);
    }
}

/// A pass that changes the text shortens it.
proof fn lemma_pass_len(d: Seq<char>, p: Seq<char>)
    ensures
        clean_pass(d, p).len() <= d.len(),
        clean_pass(d, p) != d ==> clean_pass(d, p).len() < d.len(),
{
    let a = strip(d, p);
    let b = strip(a, "--More--\n"@);
    let c = strip(b, "--More--\x08\n"@);
    lemma_strip_len(d, p);
    lemma_strip_len(a, "--More--\n"@);
    lemma_strip_len(b, "--More--\x08\n"@);
    lemma_strip_len(c, "\x1b[A\x1b[2K"@);
}

/// Enough passes always give the same result.
proof fn lemma_normalize_stable(d: Seq<char>, p: Seq<char>, n: nat)
    requires
        n > d.len(),
    ensures
        normalize_n(d, p, n) == cleaned(d, p),
        clean_pass(cleaned(d, p), p) == cleaned(d, p),
    decreases d.len(),
{
    let c = clean_pass(d, p);
    if c != d {
        lemma_pass_len(d, p);
        lemma_normalize_stable(c, p, (n - 1) as nat);
        lemma_normalize_stable(c, p, d.len());
    }
}

/// Normalizing twice gives the same text as normalizing once.
pub proof fn lemma_clean_idempotent(d: Seq<char>, p: Seq<char>)
    ensures
        cleaned(cleaned(d, p), p) == cleaned(d, p),
{
    lemma_normalize_stable(d, p, (d.len() + 1) as nat);
}

fn strip_exec(s: &[char], p: &[char]) -> (r: Vec<char>)
    ensures
        r@ == strip(s@, p@),
{
    if p.len() == 0 {
        crate::text::slice_of(s, 0, s.len())
    } else {
        remove_lit(s, p)
    }
}

fn clean_pass_exec(d: &[char], p: &[char]) -> (r: Vec<char>)
    ensures
        r@ == clean_pass(d@, p@),
{
    let a = strip_exec(d, p);
    let m1 = chars_of("--More--\n");
    let b = strip_exec(a.as_slice(), m1.as_slice());
    let m2 = chars_of("--More--\x08\n");
    let c = strip_exec(b.as_slice(), m2.as_slice());
    let m3 = chars_of("\x1b[A\x1b[2K");
    strip_exec(c.as_slice(), m3.as_slice())
}

/// Removes the terminal artifacts from a collected response, pass after
/// pass until nothing is left to remove. Only exact literal substrings are
/// deleted; nothing else changes.
pub fn clean_data(data: &str, prompt: &str) -> (r: String)
    ensures
        r@ == cleaned(data@, prompt@),
{
    let p = chars_of(prompt);
    let mut cur = chars_of(data);
    loop
        invariant
            p@ == prompt@,
            cleaned(cur@, p@) == cleaned(data@, p@),
        decreases cur@.len(),
    {
        let c = clean_pass_exec(cur.as_slice(), p.as_slice());
        proof {
            lemma_pass_len(cur@, p@);
        }
        if c.len() == cur.len() {
            proof {
                assert(clean_pass(cur@, p@) == cur@);
                assert(cleaned(cur@, p@) == cur@);
            }
            return string_of(cur.as_slice());
        }
        proof {
            lemma_normalize_stable(c@, p@, cur@.len() as nat);
        }
        cur = c;
    }
}

} // verus!
