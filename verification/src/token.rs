use vstd::prelude::*;

verus! {

/// One raw argument token, as the tokenizer hands it to the validator: a short
/// flag character, a long flag name, or a bare value.
pub enum RawArg {
    Short(char),
    Long(String),
    Neither(String),
}

/// The mathematical shape of a token: names and values as character sequences.
pub enum Token {
    Short(char),
    Long(Seq<char>),
    Value(Seq<char>),
}

impl View for RawArg {
    type V = Token;

    open spec fn view(&self) -> Token {
        match self {
            RawArg::Short(c) => Token::Short(*c),
            RawArg::Long(n) => Token::Long(n@),
            RawArg::Neither(n) => Token::Value(n@),
        }
    }
}

impl Clone for RawArg {
    fn clone(&self) -> (r: RawArg)
        ensures
            r == *self,
    {
        match self {
            RawArg::Short(c) => RawArg::Short(*c),
            RawArg::Long(n) => RawArg::Long(n.clone()),
            RawArg::Neither(n) => RawArg::Neither(n.clone()),
        }
    }
}

/// The text a token stands for: a short flag as its one character, a long flag
/// as its name, a bare token as its value.
pub open spec fn token_text(t: Token) -> Seq<char> {
    match t {
        Token::Short(c) => seq![c],
        Token::Long(n) => n,
        Token::Value(n) => n,
    }
}

impl RawArg {
    /// Whether this token is a flag (short or long) rather than a bare value.
    pub fn option(&self) -> (r: bool)
        ensures
            r == !(self@ is Value),
    {
        match self {
            RawArg::Neither(_) => false,
            _ => true,
        }
    }

    /// The text of the token.
    pub fn value(self) -> (r: String)
        ensures
            r@ == token_text(self@),
    {
        match self {
            RawArg::Short(c) => char_string(c),
            RawArg::Long(n) => n,
            RawArg::Neither(n) => n,
        }
    }
}

/// Relies on `String::push`: appends exactly the given character.
#[verifier::external_body]
pub(crate) fn push_char(s: &mut String, c: char)
    ensures
        final(s)@ == old(s)@.push(c),
{
    s.push(c);
}

/// A string holding exactly one character.
pub(crate) fn char_string(c: char) -> (r: String)
    ensures
        r@ == seq![c],
{
    let mut s = String::new();
    push_char(&mut s, c);
    proof {
        assert(s@ =~= seq![c]);
    }
    s
}

/// The position of the first `=` in `s` at or after position `i`.
pub open spec fn first_eq_from(s: Seq<char>, i: int) -> Option<int>
    decreases s.len() - i,
{
    if i < 0 || i >= s.len() {
        None
    } else if s[i] == '=' {
        Some(i)
    } else {
        first_eq_from(s, i + 1)
    }
}

/// The tokens one raw argument produces.
///
/// An argument starting with `--` is a long flag; at the first `=` past the
/// dashes it splits into the flag name and a synthetic bare value. An argument
/// starting with a single `-` produces one short-flag token per following
/// character. Anything else is one bare value.
pub open spec fn tokens_of_arg(a: Seq<char>) -> Seq<Token> {
    if a.len() >= 2 && a[0] == '-' && a[1] == '-' {
        match first_eq_from(a, 2) {
            Some(i) => seq![
                Token::Long(a.subrange(2, i)),
                Token::Value(a.subrange(i + 1, a.len() as int)),
            ],
            None => seq![Token::Long(a.subrange(2, a.len() as int))],
        }
    } else if a.len() >= 1 && a[0] == '-' {
        Seq::new((a.len() - 1) as nat, |j: int| short_token(a[j + 1]))
    } else {
        seq![Token::Value(a)]
    }
}

/// A short-flag token for one character.
pub open spec fn short_token(c: char) -> Token {
    Token::Short(c)
}

/// The tokens a whole argument list produces, in order.
pub open spec fn tokenize(args: Seq<Seq<char>>) -> Seq<Token>
    decreases args.len(),
{
    if args.len() == 0 {
        Seq::empty()
    } else {
        tokens_of_arg(args[0]) + tokenize(args.drop_first())
    }
}

/// The tokens of an argument vector whose first element is the program name.
pub open spec fn tokenize_args(args: Seq<Seq<char>>) -> Seq<Token> {
    if args.len() == 0 {
        Seq::empty()
    } else {
        tokenize(args.skip(1))
    }
}

/// The views of a sequence of raw tokens.
pub open spec fn seq_tokens(v: Seq<RawArg>) -> Seq<Token> {
    v.map_values(|r: RawArg| r@)
}

pub proof fn lemma_tokenize_snoc(args: Seq<Seq<char>>, a: Seq<char>)
    ensures
        tokenize(args.push(a)) == tokenize(args) + tokens_of_arg(a),
    decreases args.len(),
{
    if args.len() == 0 {
        reveal_with_fuel(tokenize, 2);
        assert(args.push(a).drop_first() =~= Seq::<Seq<char>>::empty());
        assert(args =~= Seq::<Seq<char>>::empty());
        assert(tokenize(args.push(a)) =~= tokens_of_arg(a));
        assert(tokenize(args) + tokens_of_arg(a) =~= tokens_of_arg(a));
    } else {
        lemma_tokenize_snoc(args.drop_first(), a);
        assert(args.push(a).drop_first() =~= args.drop_first().push(a));
        assert(args.push(a)[0] == args[0]);
        assert(tokenize(args) + tokens_of_arg(a) =~= tokens_of_arg(args[0]) + (tokenize(
            args.drop_first(),
        ) + tokens_of_arg(a)));
    }
}

/// Append the tokens of one raw argument to `v`.
pub(crate) fn push_arg_tokens(v: &mut Vec<RawArg>, arg: &String)
    ensures
        seq_tokens(final(v)@) == seq_tokens(old(v)@) + tokens_of_arg(arg@),
{
    let s = arg.as_str();
    let n = s.unicode_len();
    if n >= 2 && s.get_char(0) == '-' && s.get_char(1) == '-' {
        let mut i: usize = 2;
        while i < n && s.get_char(i) != '='
            invariant
                2 <= i <= n,
                n == arg@.len(),
                s@ == arg@,
                first_eq_from(arg@, 2) == first_eq_from(arg@, i as int),
            decreases n - i,
        {
            i = i + 1;
        }
        if i < n {
            assert(first_eq_from(arg@, 2) == Some(i as int));
            let name = s.substring_char(2, i).to_owned();
            let value = s.substring_char(i + 1, n).to_owned();
            v.push(RawArg::Long(name));
            v.push(RawArg::Neither(value));
            proof {
                assert(seq_tokens(v@) =~= seq_tokens(old(v)@) + tokens_of_arg(arg@));
            }
        } else {
            assert(first_eq_from(arg@, 2) is None);
            let name = s.substring_char(2, n).to_owned();
            v.push(RawArg::Long(name));
            proof {
                assert(seq_tokens(v@) =~= seq_tokens(old(v)@) + tokens_of_arg(arg@));
            }
        }
    } else if n >= 1 && s.get_char(0) == '-' {
        let ghost base = v@;
        let ghost whole = tokens_of_arg(arg@);
        proof {
            assert(whole.len() == n - 1);
        }
        let mut j: usize = 1;
        while j < n
            invariant
                1 <= j <= n,
                n == arg@.len(),
                s@ == arg@,
                whole == tokens_of_arg(arg@),
                whole.len() == n - 1,
                forall|k: int| 0 <= k < n - 1 ==> whole[k] == Token::Short(arg@[k + 1]),
                seq_tokens(v@) =~= seq_tokens(base) + whole.take(j - 1),
            decreases n - j,
        {
            let ghost vpre = v@;
            let c = s.get_char(j);
            v.push(RawArg::Short(c));
            j = j + 1;
            proof {
                assert(v@ == vpre.push(RawArg::Short(c)));
                assert(seq_tokens(v@) =~= seq_tokens(vpre).push(Token::Short(c)));
                assert(whole[j - 2] == Token::Short(c));
                assert(whole.take(j - 1) =~= whole.take(j - 2).push(whole[j - 2]));
                assert(seq_tokens(v@) =~= seq_tokens(base) + whole.take(j - 1));
            }
        }
        proof {
            assert(whole.take(j - 1) =~= whole);
            assert(seq_tokens(v@) =~= seq_tokens(old(v)@) + tokens_of_arg(arg@));
        }
    } else {
        v.push(RawArg::Neither(arg.clone()));
        proof {
            assert(seq_tokens(v@) =~= seq_tokens(old(v)@) + tokens_of_arg(arg@));
        }
    }
}

/// Tokenize a raw argument vector, skipping the program name in front.
pub(crate) fn prep_args(args: &Vec<String>) -> (v: Vec<RawArg>)
    ensures
        seq_tokens(v@) == tokenize_args(args.deep_view()),
{
    let mut v: Vec<RawArg> = Vec::new();
    let mut i: usize = 1;
    if args.len() == 0 {
        proof {
            assert(seq_tokens(v@) =~= tokenize_args(args.deep_view()));
        }
        return v;
    }
    while i < args.len()
        invariant
            1 <= i <= args.len(),
            args.len() >= 1,
            seq_tokens(v@) == tokenize(args.deep_view().subrange(1, i as int)),
        decreases args.len() - i,
    {
        let ghost pre = args.deep_view().subrange(1, i as int);
        push_arg_tokens(&mut v, &args[i]);
        proof {
            lemma_tokenize_snoc(pre, args.deep_view()[i as int]);
            assert(args.deep_view().subrange(1, i + 1 as int) =~= pre.push(
                args.deep_view()[i as int],
            ));
            assert(args.deep_view()[i as int] == args[i as int]@);
        }
        i = i + 1;
    }
    proof {
        assert(args.deep_view().subrange(1, args.len() as int) =~= args.deep_view().skip(1));
        assert(tokenize(args.deep_view().subrange(1, i as int)) == tokenize_args(args.deep_view()));
    }
    v
}

} // verus!
