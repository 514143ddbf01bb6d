//! The text that the shell scripts read: completion lines, and quoting for the
//! shell.
use vstd::prelude::*;
use crate::options_finder::{OptionsResults, OptView, opts_view};
use crate::machine_state::strs;

verus! {

/// The line of one candidate: its value, then a tab and its description if it has one.
pub open spec fn option_line(o: OptView) -> Seq<char> {
    match o.1 {
        Some(d) => o.0 + "\t"@ + d,
        None => o.0,
    }
}

/// All lines printed for the candidates `opts` and the special ones `specials`:
/// one line per candidate; then, if there are special ones, an empty line
/// (two where there is no candidate) and one line per special one.
pub open spec fn output_lines(opts: Seq<OptView>, specials: Seq<Seq<char>>) -> Seq<Seq<char>> {
    let lines = opts.map_values(|o: OptView| option_line(o));
    if specials.len() == 0 {
        lines
    } else if opts.len() == 0 {
        lines + seq![Seq::empty(), Seq::empty()] + specials
    } else {
        lines + seq![Seq::empty()] + specials
    }
}

/// The lines to print for `res`.
pub fn format_options(res: &OptionsResults) -> (r: Vec<String>)
    ensures
        strs(r@) == output_lines(opts_view(res.options@), strs(res.special_options@)),
{
    let ghost ov = opts_view(res.options@);
    let ghost lines = ov.map_values(|o: OptView| option_line(o));
    let mut out: Vec<String> = Vec::new();
    let mut i: usize = 0;
    while i < res.options.len()
        invariant
            i <= res.options@.len(),
            ov == opts_view(res.options@),
            lines == ov.map_values(|o: OptView| option_line(o)),
            strs(out@) =~= lines.take(i as int),
        decreases res.options.len() - i,
    {
        let o = &res.options[i];
        let line = match &o.desc {
            Some(d) => {
                let mut l = o.value.clone();
                l.append("\t");
                l.append(d.as_str());
                l
            },
            None => o.value.clone(),
        };
        assert(line@ == option_line(ov[i as int]));
        let ghost before = out@;
        out.push(line);
        assert(strs(out@) =~= strs(before).push(line@));
        assert(lines.take(i + 1) =~= lines.take(i as int).push(lines[i as int]));
        i = i + 1;
    }
    assert(lines.take(lines.len() as int) =~= lines);
    if res.special_options.len() > 0 {
        proof {
            reveal_strlit("");
        }
        if res.options.len() == 0 {
            out.push(String::new());
        }
        out.push(String::new());
        let ghost mid = out@;
        let mut j: usize = 0;
        while j < res.special_options.len()
            invariant
                j <= res.special_options@.len(),
                out@ == mid + res.special_options@.take(j as int),
            decreases res.special_options.len() - j,
        {
            out.push(res.special_options[j].clone());
            assert(res.special_options@.take(j + 1) =~= res.special_options@.take(j as int).push(
                res.special_options@[j as int],
            ));
            assert(out@ =~= mid + res.special_options@.take(j + 1));
            j = j + 1;
        }
        assert(res.special_options@.take(res.special_options@.len() as int) =~= res.special_options@);
        assert(strs(out@) =~= output_lines(ov, strs(res.special_options@)));
    }
    out
}

/// The body of a single-quoted shell word holding `s`: each `'` becomes `'"'"'`.
pub open spec fn quote_body(s: Seq<char>) -> Seq<char>
    decreases s.len(),
{
    if s.len() == 0 {
        Seq::empty()
    } else if s.last() == '\'' {
        quote_body(s.drop_last()) + "'\"'\"'"@
    } else {
        quote_body(s.drop_last()).push(s.last())
    }
}

/// `s` as one single-quoted shell word.
pub open spec fn escaped(s: Seq<char>) -> Seq<char> {
    "'"@ + quote_body(s) + "'"@
}

/// Quotes `s` as one word for the shell.
pub fn escape(s: &str) -> (r: String)
    ensures
        r@ == escaped(s@),
{
    let n = s.unicode_len();
    let mut body = String::new();
    let mut i: usize = 0;
    assert(s@.take(0) =~= Seq::<char>::empty());
    while i < n
        invariant
            n == s@.len(),
            i <= n,
            body@ == quote_body(s@.take(i as int)),
        decreases n - i,
    {
        assert(s@.take(i + 1).drop_last() =~= s@.take(i as int));
        assert(s@.take(i + 1).last() == s@[i as int]);
        if s.get_char(i) == '\'' {
            body.append("'\"'\"'");
        } else {
            let c = s.substring_char(i, i + 1);
            assert(c@ =~= seq![s@[i as int]]);
            body.append(c);
        }
        i = i + 1;
    }
    assert(s@.take(n as int) =~= s@);
    let mut r = String::from_str("'");
    r.append(body.as_str());
    r.append("'");
    r
}

} // verus!
