//! Message templates: the `{name}` placeholders of a template, and the final
//! message in which each placeholder is filled in by the value of its field.

use crate::text::chars_of;
use vstd::prelude::*;

verus! {

/// The least index at or after `from` that holds `}`; the length of `s` if
/// there is none.
pub open spec fn first_close(s: Seq<char>, from: int) -> int
    decreases s.len() - from,
{
    if from < 0 || from >= s.len() {
        s.len() as int
    } else if s[from] == '}' {
        from
    } else {
        first_close(s, from + 1)
    }
}

/// A placeholder starts at `at`: an opening brace, at least one character
/// that is no closing brace, and the first closing brace after them.
pub open spec fn token_at(s: Seq<char>, at: int) -> bool {
    &&& 0 <= at < s.len()
    &&& s[at] == '{'
    &&& at + 1 < first_close(s, at + 1) < s.len()
}

/// The names of the placeholders of `s` that start at or after `from`, from
/// left to right. After a placeholder the scan goes on behind its closing
/// brace, so placeholders never overlap.
pub open spec fn names_from(s: Seq<char>, from: int) -> Seq<Seq<char>>
    decreases s.len() - from,
{
    if from < 0 || from >= s.len() {
        Seq::empty()
    } else if token_at(s, from) {
        let close = first_close(s, from + 1);
        seq![s.subrange(from + 1, close)] + names_from(s, close + 1)
    } else {
        names_from(s, from + 1)
    }
}

/// The names of all placeholders of the template `s`, one entry for each
/// occurrence, in the order of the text.
pub open spec fn placeholder_names(s: Seq<char>) -> Seq<Seq<char>> {
    names_from(s, 0)
}

/// `first_close` stays within the text, points at a closing brace when it is
/// inside, and passes over no closing brace.
pub proof fn lemma_first_close(s: Seq<char>, from: int)
    requires
        0 <= from <= s.len(),
    ensures
        from <= first_close(s, from) <= s.len(),
        first_close(s, from) < s.len() ==> s[first_close(s, from)] == '}',
        forall|k: int| from <= k < first_close(s, from) ==> s[k] != '}',
    decreases s.len() - from,
{
    if from < s.len() && s[from] != '}' {
        lemma_first_close(s, from + 1);
    }
}

/// Where no closing brace follows, no placeholder does.
pub proof fn lemma_no_close_no_names(s: Seq<char>, from: int)
    requires
        0 <= from,
        first_close(s, from) >= s.len(),
    ensures
        names_from(s, from) == Seq::<Seq<char>>::empty(),
    decreases s.len() - from,
{
    if from < s.len() {
        lemma_first_close(s, from);
        lemma_first_close(s, from + 1);
        assert(first_close(s, from + 1) >= s.len());
        lemma_no_close_no_names(s, from + 1);
    }
}

/// The placeholders of `message`: every `{name}` token, where `name` is one or
/// more characters other than `}`. Tokens are found from left to right and do
/// not overlap; an opening brace with nothing before the next closing brace,
/// or with no closing brace after it, starts no token.
pub fn placeholders(message: &str) -> (names: Vec<String>)
    ensures
        names.deep_view() == placeholder_names(message@),
{
    let chars = chars_of(message);
    let n: usize = chars.len();
    let mut names: Vec<String> = Vec::new();
    let mut i: usize = 0;
    assert(names.deep_view() =~= Seq::<Seq<char>>::empty());
    while i < n
        invariant
            chars@ == message@,
            n == chars@.len(),
            i <= n,
            names.deep_view() + names_from(chars@, i as int) == placeholder_names(chars@),
        decreases n - i,
    {
        if chars[i] == '{' {
            let mut j: usize = i + 1;
            while j < n && chars[j] != '}'
                invariant
                    n == chars@.len(),
                    i + 1 <= j <= n,
                    first_close(chars@, i + 1) == first_close(chars@, j as int),
                decreases n - j,
            {
                j = j + 1;
            }
            let ghost close = first_close(chars@, i + 1);
            let ghost done = names.deep_view();
            if j >= n {
                proof {
                    assert(close >= n);
                    lemma_no_close_no_names(chars@, i + 1);
                    assert(!token_at(chars@, i as int));
                    assert(names_from(chars@, i as int) == names_from(chars@, i + 1));
                    assert(names_from(chars@, n as int) == Seq::<Seq<char>>::empty());
                }
                i = n;
            } else if j == i + 1 {
                proof {
                    assert(close == j);
                    assert(!token_at(chars@, i as int));
                    assert(!token_at(chars@, j as int));
                    assert(names_from(chars@, i as int) == names_from(chars@, i + 1));
                    assert(names_from(chars@, j as int) == names_from(chars@, j + 1));
                }
                i = j + 1;
            } else {
                let name = message.substring_char(i + 1, j).to_owned();
                names.push(name);
                proof {
                    let token = chars@.subrange(i + 1, j as int);
                    assert(close == j);
                    assert(token_at(chars@, i as int));
                    assert(names_from(chars@, i as int) == seq![token] + names_from(
                        chars@,
                        j + 1,
                    ));
                    assert(names.deep_view() =~= done + seq![token]);
                    assert((done + seq![token]) + names_from(chars@, j + 1) =~= done + (seq![token]
                        + names_from(chars@, j + 1)));
                }
                i = j + 1;
            }
        } else {
            i = i + 1;
        }
    }
    names
}

/// The token that stands for the field `name` in a template: the name between
/// braces.
pub open spec fn token_of(name: Seq<char>) -> Seq<char> {
    seq!['{'] + name + seq!['}']
}

/// `pattern` stands in `text` at index `at`.
pub open spec fn occurs_at(text: Seq<char>, pattern: Seq<char>, at: int) -> bool {
    &&& 0 <= at
    &&& at + pattern.len() <= text.len()
    &&& text.subrange(at, at + pattern.len()) == pattern
}

/// The value that the fields from index `from` on give to `name`: that of
/// the first of them that has the name, if there is one. Each field is a
/// pair of a name and a value.
pub open spec fn value_from(fields: Seq<(Seq<char>, Seq<char>)>, name: Seq<char>, from: int) -> Option<
    Seq<char>,
>
    decreases fields.len() - from,
{
    if from < 0 || from >= fields.len() {
        None
    } else if fields[from].0 == name {
        Some(fields[from].1)
    } else {
        value_from(fields, name, from + 1)
    }
}

/// The value that `fields` give to `name`: that of the first field of that
/// name, if there is one.
pub open spec fn value_of(fields: Seq<(Seq<char>, Seq<char>)>, name: Seq<char>) -> Option<
    Seq<char>,
> {
    value_from(fields, name, 0)
}

/// The part of the template `s` from index `from` on, with each placeholder
/// filled in: where `fields` give its name a value, the value stands in the
/// place of the placeholder; a placeholder without field and every other
/// character stay. What is put in is not looked at again.
pub open spec fn filled_from(s: Seq<char>, fields: Seq<(Seq<char>, Seq<char>)>, from: int) -> Seq<
    char,
>
    decreases s.len() - from,
{
    if from < 0 || from >= s.len() {
        Seq::empty()
    } else if token_at(s, from) {
        let close = first_close(s, from + 1);
        (match value_of(fields, s.subrange(from + 1, close)) {
            Some(value) => value,
            None => s.subrange(from, close + 1),
        }) + filled_from(s, fields, close + 1)
    } else {
        seq![s[from]] + filled_from(s, fields, from + 1)
    }
}

/// The final message of the template `raw`: each placeholder is replaced by
/// the value of the field of its name. The placeholders are those of the
/// template; the values are put in as they are.
pub open spec fn filled(raw: Seq<char>, fields: Seq<(Seq<char>, Seq<char>)>) -> Seq<char> {
    filled_from(raw, fields, 0)
}

/// Where no closing brace follows, filling in changes nothing.
proof fn lemma_filled_without_close(
    s: Seq<char>,
    fields: Seq<(Seq<char>, Seq<char>)>,
    from: int,
)
    requires
        0 <= from <= s.len(),
        first_close(s, from) >= s.len(),
    ensures
        filled_from(s, fields, from) == s.subrange(from, s.len() as int),
    decreases s.len() - from,
{
    if from < s.len() {
        lemma_first_close(s, from + 1);
        lemma_filled_without_close(s, fields, from + 1);
        assert(seq![s[from]] + s.subrange(from + 1, s.len() as int) =~= s.subrange(
            from,
            s.len() as int,
        ));
    } else {
        assert(s.subrange(from, s.len() as int) =~= Seq::<char>::empty());
    }
}

/// The value of the first field named `name`, if there is one.
fn find_value<'a>(fields: &'a Vec<(String, String)>, name: &String) -> (value: Option<&'a String>)
    ensures
        match value {
            Some(v) => value_of(fields.deep_view(), name@) == Some(v@),
            None => value_of(fields.deep_view(), name@) is None,
        },
{
    let mut f: usize = 0;
    while f < fields.len()
        invariant
            f <= fields.len(),
            value_of(fields.deep_view(), name@) == value_from(fields.deep_view(), name@, f as int),
        decreases fields.len() - f,
    {
        assert(fields.deep_view()[f as int] == (fields@[f as int].0@, fields@[f as int].1@));
        if fields[f].0 == *name {
            return Some(&fields[f].1);
        }
        f = f + 1;
    }
    None
}

/// The final message of a template: every `{name}` placeholder of `raw` is
/// replaced by the value of the first field named `name`; a placeholder for
/// which there is no field stays as it is. Each field is a pair of a name
/// and a value. The template is read once, so a value is never searched for
/// placeholders and the order of fields with different names does not
/// matter.
pub fn render(raw: &str, fields: &Vec<(String, String)>) -> (out: String)
    ensures
        out@ == filled(raw@, fields.deep_view()),
{
    let chars = chars_of(raw);
    let n: usize = chars.len();
    let ghost given = fields.deep_view();
    let mut out = String::new();
    let mut kept: usize = 0;
    let mut i: usize = 0;
    assert(out@ + chars@.subrange(0, 0) =~= Seq::<char>::empty());
    while i < n
        invariant
            chars@ == raw@,
            given == fields.deep_view(),
            n == chars@.len(),
            kept <= i <= n,
            out@ + chars@.subrange(kept as int, i as int) + filled_from(chars@, given, i as int)
                == filled(chars@, given),
        decreases n - i,
    {
        let ghost before = out@;
        let ghost rest = filled_from(chars@, given, i as int);
        if chars[i] == '{' {
            let mut j: usize = i + 1;
            while j < n && chars[j] != '}'
                invariant
                    n == chars@.len(),
                    i + 1 <= j <= n,
                    first_close(chars@, i + 1) == first_close(chars@, j as int),
                decreases n - j,
            {
                j = j + 1;
            }
            if j >= n {
                proof {
                    lemma_filled_without_close(chars@, given, i + 1);
                    assert(!token_at(chars@, i as int));
                    assert(out@ + chars@.subrange(kept as int, n as int) + filled_from(
                        chars@,
                        given,
                        n as int,
                    ) =~= before + chars@.subrange(kept as int, i as int) + rest);
                }
                i = n;
            } else if j == i + 1 {
                proof {
                    assert(!token_at(chars@, i as int));
                    assert(!token_at(chars@, j as int));
                    assert(filled_from(chars@, given, j as int) == seq![chars@[j as int]]
                        + filled_from(chars@, given, j + 1));
                    assert(out@ + chars@.subrange(kept as int, j + 1) + filled_from(
                        chars@,
                        given,
                        j + 1,
                    ) =~= before + chars@.subrange(kept as int, i as int) + rest);
                }
                i = j + 1;
            } else {
                let name = raw.substring_char(i + 1, j).to_owned();
                assert(token_at(chars@, i as int));
                out.append(raw.substring_char(kept, i));
                match find_value(fields, &name) {
                    Some(value) => {
                        out.append(value.as_str());
                    },
                    None => {
                        out.append(raw.substring_char(i, j + 1));
                    },
                }
                proof {
                    assert(out@ + chars@.subrange(j + 1, j + 1) + filled_from(
                        chars@,
                        given,
                        j + 1,
                    ) =~= before + chars@.subrange(kept as int, i as int) + rest);
                }
                i = j + 1;
                kept = i;
            }
        } else {
            proof {
                assert(out@ + chars@.subrange(kept as int, i + 1) + filled_from(
                    chars@,
                    given,
                    i + 1,
                ) =~= before + chars@.subrange(kept as int, i as int) + rest);
            }
            i = i + 1;
        }
    }
    out.append(raw.substring_char(kept, n));
    assert(out@ =~= out@ + Seq::<char>::empty());
    out
}

/// A template filled in with no field stays as it is from `from` on.
proof fn lemma_filled_with_nothing(s: Seq<char>, from: int)
    requires
        0 <= from <= s.len(),
    ensures
        filled_from(s, Seq::empty(), from) == s.subrange(from, s.len() as int),
    decreases s.len() - from,
{
    if from < s.len() {
        if token_at(s, from) {
            let close = first_close(s, from + 1);
            lemma_first_close(s, from + 1);
            lemma_filled_with_nothing(s, close + 1);
            assert(s.subrange(from, close + 1) + s.subrange(close + 1, s.len() as int)
                =~= s.subrange(from, s.len() as int));
        } else {
            lemma_filled_with_nothing(s, from + 1);
            assert(seq![s[from]] + s.subrange(from + 1, s.len() as int) =~= s.subrange(
                from,
                s.len() as int,
            ));
        }
    } else {
        assert(s.subrange(from, s.len() as int) =~= Seq::<char>::empty());
    }
}

/// A template without fields is its own final message.
pub proof fn lemma_filled_without_fields(raw: Seq<char>)
    ensures
        filled(raw, Seq::empty()) == raw,
{
    lemma_filled_with_nothing(raw, 0);
    assert(raw.subrange(0, raw.len() as int) =~= raw);
}

/// A template without placeholders is its own final message, whatever the
/// fields.
pub proof fn lemma_filled_without_placeholders(raw: Seq<char>, fields: Seq<(Seq<char>, Seq<char>)>)
    requires
        placeholder_names(raw).len() == 0,
    ensures
        filled(raw, fields) == raw,
{
    lemma_filled_without_names(raw, fields, 0);
    assert(raw.subrange(0, raw.len() as int) =~= raw);
}

/// Where no placeholder follows, filling in changes nothing.
proof fn lemma_filled_without_names(s: Seq<char>, fields: Seq<(Seq<char>, Seq<char>)>, from: int)
    requires
        0 <= from <= s.len(),
        names_from(s, from).len() == 0,
    ensures
        filled_from(s, fields, from) == s.subrange(from, s.len() as int),
    decreases s.len() - from,
{
    if from < s.len() {
        assert(!token_at(s, from));
        lemma_filled_without_names(s, fields, from + 1);
        assert(seq![s[from]] + s.subrange(from + 1, s.len() as int) =~= s.subrange(
            from,
            s.len() as int,
        ));
    } else {
        assert(s.subrange(from, s.len() as int) =~= Seq::<char>::empty());
    }
}

/// Filling in depends on the fields only through the values they give.
proof fn lemma_filled_same_values(
    s: Seq<char>,
    first: Seq<(Seq<char>, Seq<char>)>,
    second: Seq<(Seq<char>, Seq<char>)>,
    from: int,
)
    requires
        0 <= from,
        forall|name: Seq<char>| value_of(first, name) == value_of(second, name),
    ensures
        filled_from(s, first, from) == filled_from(s, second, from),
    decreases s.len() - from,
{
    if from < s.len() {
        if token_at(s, from) {
            lemma_filled_same_values(s, first, second, first_close(s, from + 1) + 1);
        } else {
            lemma_filled_same_values(s, first, second, from + 1);
        }
    }
}

/// No two fields have the same name.
pub open spec fn distinct_names(fields: Seq<(Seq<char>, Seq<char>)>) -> bool {
    forall|i: int, j: int|
        #![trigger fields[i], fields[j]]
        0 <= i < j < fields.len() ==> fields[i].0 != fields[j].0
}

/// What the fields from `from` on give to a name is the value of one of
/// them; where they give none, none of them has the name.
proof fn lemma_value_from(fields: Seq<(Seq<char>, Seq<char>)>, name: Seq<char>, from: int)
    requires
        0 <= from,
    ensures
        match value_from(fields, name, from) {
            Some(value) => exists|f: int|
                from <= f < fields.len() && (#[trigger] fields[f]).0 == name && fields[f].1
                    == value,
            None => forall|f: int| from <= f < fields.len() ==> (#[trigger] fields[f]).0 != name,
        },
    decreases fields.len() - from,
{
    if from < fields.len() {
        if fields[from].0 != name {
            lemma_value_from(fields, name, from + 1);
        }
    }
}

/// Fields with distinct names give the name of each field that field's
/// value.
pub proof fn lemma_value_of_field(fields: Seq<(Seq<char>, Seq<char>)>, f: int)
    requires
        distinct_names(fields),
        0 <= f < fields.len(),
    ensures
        value_of(fields, fields[f].0) == Some(fields[f].1),
{
    lemma_value_from(fields, fields[f].0, 0);
    let found = choose|g: int|
        0 <= g < fields.len() && (#[trigger] fields[g]).0 == fields[f].0 && fields[g].1
            == value_of(fields, fields[f].0)->0;
    if found < f {
        assert(fields[found].0 != fields[f].0);
    } else if f < found {
        assert(fields[f].0 != fields[found].0);
    }
}

/// The order of the fields does not matter. Where no two fields have the
/// same name, the same fields in any other order give the same final
/// message.
pub proof fn lemma_filled_any_order(
    raw: Seq<char>,
    first: Seq<(Seq<char>, Seq<char>)>,
    second: Seq<(Seq<char>, Seq<char>)>,
)
    requires
        distinct_names(first),
        forall|field: (Seq<char>, Seq<char>)| first.contains(field) <==> second.contains(field),
    ensures
        filled(raw, first) == filled(raw, second),
{
    assert forall|name: Seq<char>| value_of(first, name) == value_of(second, name) by {
        lemma_value_from(first, name, 0);
        lemma_value_from(second, name, 0);
        match value_of(second, name) {
            Some(other) => {
                let g = choose|g: int|
                    0 <= g < second.len() && (#[trigger] second[g]).0 == name && second[g].1
                        == other;
                assert(second.contains(second[g]));
                assert(first.contains(second[g]));
                let f = choose|f: int| 0 <= f < first.len() && first[f] == second[g];
                lemma_value_of_field(first, f);
            },
            None => {
                if let Some(value) = value_of(first, name) {
                    let f = choose|f: int|
                        0 <= f < first.len() && (#[trigger] first[f]).0 == name && first[f].1
                            == value;
                    assert(first.contains(first[f]));
                    assert(second.contains(first[f]));
                    let g = choose|g: int| 0 <= g < second.len() && second[g] == first[f];
                    assert(second[g].0 == name);
                }
            },
        }
    }
    lemma_filled_same_values(raw, first, second, 0);
}

/// A name is one that a placeholder can have: it has at least one character
/// and holds no closing brace.
pub open spec fn is_name(name: Seq<char>) -> bool {
    &&& name.len() > 0
    &&& forall|c: int| 0 <= c < name.len() ==> name[c] != '}'
}

/// Every placeholder found at or after `from` has a name of the right shape,
/// and its token stands in the text at or after `from`.
pub proof fn lemma_names_from_stand(s: Seq<char>, from: int)
    requires
        0 <= from,
    ensures
        forall|k: int|
            0 <= k < names_from(s, from).len() ==> is_name(#[trigger] names_from(s, from)[k])
                && exists|at: int| from <= at && occurs_at(s, token_of(names_from(s, from)[k]), at),
    decreases s.len() - from,
{
    if from < s.len() {
        if token_at(s, from) {
            let close = first_close(s, from + 1);
            let name = s.subrange(from + 1, close);
            let rest = names_from(s, close + 1);
            lemma_first_close(s, from + 1);
            lemma_names_from_stand(s, close + 1);
            assert(s.subrange(from, from + token_of(name).len()) =~= token_of(name));
            assert(occurs_at(s, token_of(name), from));
            assert forall|k: int| 0 <= k < names_from(s, from).len() implies is_name(
                #[trigger] names_from(s, from)[k],
            ) && exists|at: int|
                from <= at && occurs_at(s, token_of(names_from(s, from)[k]), at) by {
                if k > 0 {
                    let later = rest[k - 1];
                    assert(names_from(s, from)[k] == later);
                    assert(is_name(later));
                    let at = choose|at: int| close + 1 <= at && occurs_at(s, token_of(later), at);
                    assert(from <= at && occurs_at(s, token_of(names_from(s, from)[k]), at));
                } else {
                    assert(names_from(s, from)[k] == name);
                }
            }
        } else {
            lemma_names_from_stand(s, from + 1);
            assert forall|k: int| 0 <= k < names_from(s, from).len() implies is_name(
                #[trigger] names_from(s, from)[k],
            ) && exists|at: int|
                from <= at && occurs_at(s, token_of(names_from(s, from)[k]), at) by {
                let later = names_from(s, from + 1)[k];
                assert(is_name(later));
                let at = choose|at: int| from + 1 <= at && occurs_at(s, token_of(later), at);
                assert(from <= at && occurs_at(s, token_of(names_from(s, from)[k]), at));
            }
        }
    } else {
        assert(names_from(s, from).len() == 0);
    }
}

/// What the placeholders of a template are: each name has at least one
/// character and no closing brace, and the name between braces stands
/// somewhere in the template.
pub proof fn lemma_placeholders_stand(s: Seq<char>)
    ensures
        forall|k: int|
            0 <= k < placeholder_names(s).len() ==> is_name(#[trigger] placeholder_names(s)[k])
                && exists|at: int| occurs_at(s, token_of(placeholder_names(s)[k]), at),
{
    lemma_names_from_stand(s, 0);
    assert forall|k: int| 0 <= k < placeholder_names(s).len() implies is_name(
        #[trigger] placeholder_names(s)[k],
    ) && exists|at: int| occurs_at(s, token_of(placeholder_names(s)[k]), at) by {
        let at = choose|at: int| 0 <= at && occurs_at(s, token_of(names_from(s, 0)[k]), at);
        assert(occurs_at(s, token_of(placeholder_names(s)[k]), at));
    }
}

} // verus!
