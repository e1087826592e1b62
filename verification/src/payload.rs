//! Serialization of a membership snapshot into the replication request body:
//! a JSON object with a single `approvedUsers` array holding one string per
//! approved identifier.

use vstd::prelude::*;

verus! {

/// The abstract form of a list of identifiers: each as its character
/// sequence.
pub open spec fn views_of(ids: Seq<String>) -> Seq<Seq<char>> {
    ids.map_values(|s: String| s@)
}

/// The lower-case hexadecimal digit for a value below 16.
pub open spec fn hex_digit(n: int) -> char {
    if n == 0 {
        '0'
    } else if n == 1 {
        '1'
    } else if n == 2 {
        '2'
    } else if n == 3 {
        '3'
    } else if n == 4 {
        '4'
    } else if n == 5 {
        '5'
    } else if n == 6 {
        '6'
    } else if n == 7 {
        '7'
    } else if n == 8 {
        '8'
    } else if n == 9 {
        '9'
    } else if n == 10 {
        'a'
    } else if n == 11 {
        'b'
    } else if n == 12 {
        'c'
    } else if n == 13 {
        'd'
    } else if n == 14 {
        'e'
    } else {
        'f'
    }
}

/// How one character appears inside a JSON string: quotes and backslashes
/// get a backslash escape, control characters a `\u00XX` escape, everything
/// else stands as itself.
pub open spec fn escape_char(c: char) -> Seq<char> {
    if c == '"' {
        seq!['\\', '"']
    } else if c == '\\' {
        seq!['\\', '\\']
    } else if (c as u32) < 32 {
        seq!['\\', 'u', '0', '0', hex_digit((c as u32) as int / 16), hex_digit((c as u32) as int % 16)]
    } else {
        seq![c]
    }
}

/// A whole character sequence escaped for use inside a JSON string.
pub open spec fn escape_seq(s: Seq<char>) -> Seq<char>
    decreases s.len(),
{
    if s.len() == 0 {
        Seq::empty()
    } else {
        escape_char(s[0]) + escape_seq(s.drop_first())
    }
}

/// An identifier rendered as a JSON string: escaped and wrapped in quotes.
pub open spec fn quoted(s: Seq<char>) -> Seq<char> {
    seq!['"'] + escape_seq(s) + seq!['"']
}

/// The identifiers rendered as the comma-separated inside of a JSON array.
pub open spec fn joined(ids: Seq<Seq<char>>) -> Seq<char>
    decreases ids.len(),
{
    if ids.len() == 0 {
        Seq::empty()
    } else if ids.len() == 1 {
        quoted(ids[0])
    } else {
        quoted(ids[0]) + seq![','] + joined(ids.drop_first())
    }
}

/// The characters that open the payload object, up to and including the
/// bracket that opens the `approvedUsers` array.
pub open spec fn payload_header() -> Seq<char> {
    seq!['{', '"', 'a', 'p', 'p', 'r', 'o', 'v', 'e', 'd', 'U', 's', 'e', 'r', 's', '"', ':', '[']
}

/// The characters that close the array and the object.
pub open spec fn payload_footer() -> Seq<char> {
    seq![']', '}']
}

/// The full request body for a snapshot: `{"approvedUsers":[...]}` with one
/// JSON string per identifier, in the given order.
pub open spec fn payload_json_spec(ids: Seq<Seq<char>>) -> Seq<char> {
    payload_header() + joined(ids) + payload_footer()
}

proof fn lemma_escape_seq_push(s: Seq<char>, c: char)
    ensures
        escape_seq(s.push(c)) == escape_seq(s) + escape_char(c),
    decreases s.len(),
{
    if s.len() == 0 {
        assert(s.push(c).drop_first() =~= Seq::<char>::empty());
        assert(escape_seq(Seq::<char>::empty()) == Seq::<char>::empty());
        assert(s.push(c)[0] == c);
        assert(escape_seq(s.push(c)) =~= escape_seq(s) + escape_char(c));
    } else {
        assert(s.push(c).drop_first() =~= s.drop_first().push(c));
        lemma_escape_seq_push(s.drop_first(), c);
        assert(escape_seq(s.push(c)) =~= escape_seq(s) + escape_char(c));
    }
}

proof fn lemma_joined_push(ids: Seq<Seq<char>>, x: Seq<char>)
    ensures
        ids.len() == 0 ==> joined(ids.push(x)) == quoted(x),
        ids.len() > 0 ==> joined(ids.push(x)) == joined(ids) + seq![','] + quoted(x),
    decreases ids.len(),
{
    if ids.len() == 0 {
        assert(joined(ids.push(x)) =~= quoted(x));
    } else if ids.len() == 1 {
        assert(ids.push(x).drop_first() =~= seq![x]);
        assert(joined(seq![x]) == quoted(seq![x][0]));
        assert(seq![x][0] == x);
        assert(ids.push(x)[0] == ids[0]);
        assert(joined(ids.push(x)) =~= joined(ids) + seq![','] + quoted(x));
    } else {
        assert(ids.push(x).drop_first() =~= ids.drop_first().push(x));
        lemma_joined_push(ids.drop_first(), x);
        assert(joined(ids.push(x)) =~= joined(ids) + seq![','] + quoted(x));
    }
}

fn hex_digit_exec(n: u8) -> (c: char)
    requires
        n < 16,
    ensures
        c == hex_digit(n as int),
{
    if n == 0 {
        '0'
    } else if n == 1 {
        '1'
    } else if n == 2 {
        '2'
    } else if n == 3 {
        '3'
    } else if n == 4 {
        '4'
    } else if n == 5 {
        '5'
    } else if n == 6 {
        '6'
    } else if n == 7 {
        '7'
    } else if n == 8 {
        '8'
    } else if n == 9 {
        '9'
    } else if n == 10 {
        'a'
    } else if n == 11 {
        'b'
    } else if n == 12 {
        'c'
    } else if n == 13 {
        'd'
    } else if n == 14 {
        'e'
    } else {
        'f'
    }
}

fn push_escaped(out: &mut Vec<char>, c: char)
    ensures
        final(out)@ == old(out)@ + escape_char(c),
{
    if c == '"' {
        out.push('\\');
        out.push('"');
    } else if c == '\\' {
        out.push('\\');
        out.push('\\');
    } else {
        let code: u32 = c as u32;
        if code < 32 {
            out.push('\\');
            out.push('u');
            out.push('0');
            out.push('0');
            out.push(hex_digit_exec((code / 16) as u8));
            out.push(hex_digit_exec((code % 16) as u8));
        } else {
            out.push(c);
        }
    }
    assert(out@ =~= old(out)@ + escape_char(c));
}

fn push_quoted(out: &mut Vec<char>, id: &String)
    ensures
        final(out)@ == old(out)@ + quoted(id@),
{
    out.push('"');
    let n: usize = id.as_str().unicode_len();
    let mut i: usize = 0;
    while i < n
        invariant
            i <= n,
            n == id@.len(),
            out@ == old(out)@ + seq!['"'] + escape_seq(id@.take(i as int)),
        decreases n - i,
    {
        let c = id.as_str().get_char(i);
        proof {
            lemma_escape_seq_push(id@.take(i as int), id@[i as int]);
            assert(id@.take(i as int + 1) =~= id@.take(i as int).push(id@[i as int]));
        }
        push_escaped(out, c);
        proof {
            assert(out@ =~= old(out)@ + seq!['"'] + escape_seq(id@.take(i as int + 1)));
        }
        i = i + 1;
    }
    proof {
        assert(id@.take(n as int) =~= id@);
    }
    out.push('"');
    assert(out@ =~= old(out)@ + quoted(id@));
}

/// Relies on String's FromIterator over char: collecting characters yields
/// the string made of exactly those characters in order.
#[verifier::external_body]
fn chars_to_string(cs: &Vec<char>) -> (r: String)
    ensures
        r@ == cs@,
{
    cs.iter().collect()
}

/// Builds the request body for the given snapshot; this is what one attempt
/// ships to the external store.
pub fn payload_json(users: &Vec<String>) -> (r: String)
    ensures
        r@ == payload_json_spec(views_of(users@)),
{
    let mut out: Vec<char> = Vec::new();
    out.push('{');
    out.push('"');
    out.push('a');
    out.push('p');
    out.push('p');
    out.push('r');
    out.push('o');
    out.push('v');
    out.push('e');
    out.push('d');
    out.push('U');
    out.push('s');
    out.push('e');
    out.push('r');
    out.push('s');
    out.push('"');
    out.push(':');
    out.push('[');
    assert(out@ =~= payload_header());
    let mut i: usize = 0;
    while i < users.len()
        invariant
            i <= users@.len(),
            out@ == payload_header() + joined(views_of(users@).take(i as int)),
        decreases users@.len() - i,
    {
        if i > 0 {
            out.push(',');
        }
        proof {
            lemma_joined_push(views_of(users@).take(i as int), users@[i as int]@);
            assert(views_of(users@).take(i as int + 1) =~= views_of(users@).take(
                i as int,
            ).push(users@[i as int]@));
        }
        push_quoted(&mut out, &users[i]);
        proof {
            assert(out@ =~= payload_header() + joined(views_of(users@).take(i as int + 1)));
        }
        i = i + 1;
    }
    proof {
        assert(views_of(users@).take(users@.len() as int) =~= views_of(users@));
    }
    out.push(']');
    out.push('}');
    assert(out@ =~= payload_json_spec(views_of(users@)));
    chars_to_string(&out)
}

} // verus!
