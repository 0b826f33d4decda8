use vstd::prelude::*;

verus! {

/// Characters with Unicode's White_Space property, which separate words.
pub open spec fn is_space(c: char) -> bool {
    ('\u{9}' <= c && c <= '\u{d}') || c == ' ' || c == '\u{85}' || c == '\u{a0}' || c
        == '\u{1680}' || ('\u{2000}' <= c && c <= '\u{200a}') || c == '\u{2028}' || c
        == '\u{2029}' || c == '\u{202f}' || c == '\u{205f}' || c == '\u{3000}'
}

/// Reading `s` from the left: the words completed so far, and the word
/// being read.
pub open spec fn split_state(s: Seq<char>) -> (Seq<Seq<char>>, Seq<char>)
    decreases s.len(),
{
    if s.len() == 0 {
        (Seq::empty(), Seq::empty())
    } else {
        let (done, cur) = split_state(s.drop_last());
        let c = s.last();
        if is_space(c) {
            if cur.len() == 0 {
                (done, cur)
            } else {
                (done.push(cur), Seq::empty())
            }
        } else {
            (done, cur.push(c))
        }
    }
}

/// The maximal runs of non-space characters of `s`, in order.
pub open spec fn split_words(s: Seq<char>) -> Seq<Seq<char>> {
    let (done, cur) = split_state(s);
    if cur.len() == 0 {
        done
    } else {
        done.push(cur)
    }
}

fn char_is_space(c: char) -> (r: bool)
    ensures
        r == is_space(c),
{
    ('\u{9}' <= c && c <= '\u{d}') || c == ' ' || c == '\u{85}' || c == '\u{a0}' || c
        == '\u{1680}' || ('\u{2000}' <= c && c <= '\u{200a}') || c == '\u{2028}' || c
        == '\u{2029}' || c == '\u{202f}' || c == '\u{205f}' || c == '\u{3000}'
}

/// Relies on String::push: appends one character.
#[verifier::external_body]
fn push_char(s: &mut String, c: char)
    ensures
        final(s)@ == old(s)@.push(c),
{
    s.push(c)
}

/// A queue of words, taken from the front.
#[derive(Debug, Clone)]
pub struct TokenStream {
    tokens: std::collections::VecDeque<String>,
}

impl View for TokenStream {
    type V = Seq<Seq<char>>;

    closed spec fn view(&self) -> Seq<Seq<char>> {
        self.tokens@.map_values(|t: String| t@)
    }
}

impl TokenStream {
    /// An empty queue.
    pub fn new() -> (r: TokenStream)
        ensures
            r@ == Seq::<Seq<char>>::empty(),
    {
        let r = TokenStream { tokens: std::collections::VecDeque::new() };
        assert(r@ =~= Seq::<Seq<char>>::empty());
        r
    }

    /// Puts a word at the back.
    pub fn push(&mut self, token: String)
        ensures
            final(self)@ == old(self)@.push(token@),
    {
        self.tokens.push_back(token);
        assert(final(self)@ =~= old(self)@.push(token@));
    }

    /// The words of `input`, split at white space.
    pub fn from_str(input: &str) -> (r: TokenStream)
        ensures
            r@ == split_words(input@),
    {
        broadcast use vstd::string::axiom_spec_iter;

        let mut stream = TokenStream::new();
        let mut cur = String::new();
        let mut in_word = false;
        for c in it: input.chars()
            invariant
                it.seq() == input@,
                (stream@, cur@) == split_state(input@.take(it.index() as int)),
                in_word == (cur@.len() > 0),
        {
            proof {
                let t = input@.take(it.index() + 1);
                assert(t.drop_last() =~= input@.take(it.index() as int));
            }
            if char_is_space(c) {
                if in_word {
                    stream.push(cur);
                    cur = String::new();
                    in_word = false;
                }
            } else {
                push_char(&mut cur, c);
                in_word = true;
            }
        }
        assert(input@.take(input@.len() as int) =~= input@);
        if in_word {
            stream.push(cur);
        }
        stream
    }

    /// The number of words left.
    pub fn len(&self) -> (r: usize)
        ensures
            r == self@.len(),
    {
        self.tokens.len()
    }

    /// Takes the front word.
    pub fn next(&mut self) -> (r: Option<String>)
        ensures
            old(self)@.len() == 0 ==> r is None && final(self)@ == old(self)@,
            old(self)@.len() > 0 ==> r is Some && r->0@ == old(self)@[0] && final(self)@ == old(
                self,
            )@.drop_first(),
    {
        let r = self.tokens.pop_front();
        assert(final(self)@ =~= old(self)@.skip(old(self)@.len() - final(self).tokens@.len()));
        r
    }

    /// Takes the two front words; with fewer than two left, takes what is
    /// there and gives `None`.
    pub fn next2(&mut self) -> (r: Option<(String, String)>)
        ensures
            old(self)@.len() >= 2 ==> r is Some && (r->0).0@ == old(self)@[0] && (r->0).1@ == old(
                self,
            )@[1] && final(self)@ == old(self)@.skip(2),
            old(self)@.len() < 2 ==> r is None && final(self)@ == Seq::<Seq<char>>::empty(),
    {
        let first = self.next();
        let second = self.next();
        assert(old(self)@.len() >= 2 ==> old(self)@.skip(2) =~= old(self)@.drop_first().drop_first());
        assert(old(self)@.len() < 2 ==> final(self)@ =~= Seq::<Seq<char>>::empty());
        match (first, second) {
            (Some(f), Some(s)) => Some((f, s)),
            _ => None,
        }
    }

    /// The front word, left in place.
    pub fn peek(&self) -> (r: Option<&String>)
        ensures
            r is Some <==> self@.len() > 0,
            r is Some ==> r->0@ == self@[0],
    {
        if self.tokens.len() > 0 {
            Some(&self.tokens[0])
        } else {
            None
        }
    }

    /// The word at position `n` from the front, left in place.
    pub fn peekn(&self, n: usize) -> (r: Option<&String>)
        ensures
            r is Some <==> n < self@.len(),
            r is Some ==> r->0@ == self@[n as int],
    {
        if n < self.tokens.len() {
            Some(&self.tokens[n])
        } else {
            None
        }
    }
}

} // verus!
