//! Which group the daemon's socket belongs to.
use vstd::prelude::*;

use crate::text::{
    chars_of, decimal, fields, fields_of, law_decimals_have_digits_only, law_decimals_stand_out,
    law_fields_end_at_separators, lemma_until_splits, lines, lines_of, parse_u32, parsed, same_text,
    texts, trim, trimmed, until,
};

verus! {

/// The group that the socket belongs to, where there is one of that name.
pub const SOCKET_GROUP: &'static str = "supaa";

/// The group that the socket belongs to where the other one is missing.
pub const FALLBACK_GROUP: &'static str = "wheel";

/// The number of a group in the lines of a group file.
///
/// Each line holds fields with colons between them: the name, a password, the number and the rest.
/// The first line with the name counts, even where its number cannot be read.
pub open spec fn gid_on(lines: Seq<Seq<char>>, name: Seq<char>) -> Option<nat>
    decreases lines.len(),
{
    if lines.len() == 0 {
        None
    } else {
        let fields = fields_of(lines[0], ':', 4);
        if fields[0] != name {
            gid_on(lines.skip(1), name)
        } else if fields.len() < 3 {
            None
        } else {
            parsed(trimmed(fields[2]), u32::MAX as nat)
        }
    }
}

/// The number of a group in the text of a group file.
pub open spec fn gid_of(content: Seq<char>, name: Seq<char>) -> Option<nat> {
    gid_on(lines_of(content), name)
}

/// The number of a group in the text of a group file.
pub fn lookup_gid(content: &str, name: &str) -> (r: Option<u32>)
    ensures
        match r {
            Some(gid) => gid_of(content@, name@) == Some(gid as nat),
            None => gid_of(content@, name@) is None,
        },
{
    let chars = chars_of(content);
    let wanted = chars_of(name);
    let all = lines(chars.as_slice());
    let ghost lines = texts(all@);
    proof {
        assert(lines.skip(0) =~= lines);
    }
    let mut i: usize = 0;
    while i < all.len()
        invariant
            i <= all@.len(),
            lines == texts(all@),
            lines == lines_of(content@),
            wanted@ == name@,
            gid_on(lines, name@) == gid_on(lines.skip(i as int), name@),
        decreases all@.len() - i,
    {
        let parts = fields(all[i], ':', 4);
        proof {
            assert(lines.skip(i as int)[0] == all@[i as int]@);
            assert(lines.skip(i as int).skip(1) =~= lines.skip(i + 1));
            assert(texts(parts@).len() == parts@.len());
            assert(texts(parts@)[0] == parts@[0]@);
        }
        if same_text(parts[0], wanted.as_slice()) {
            if parts.len() < 3 {
                return None;
            }
            proof {
                assert(texts(parts@)[2] == parts@[2]@);
            }
            return parse_u32(trim(parts[2]));
        }
        i = i + 1;
    }
    None
}

/// The group that the socket is handed to, with its number: the first of the two that has one.
pub open spec fn chosen_group(content: Seq<char>) -> Option<(Seq<char>, nat)> {
    match gid_of(content, SOCKET_GROUP@) {
        Some(gid) => Some((SOCKET_GROUP@, gid)),
        None => match gid_of(content, FALLBACK_GROUP@) {
            Some(gid) => Some((FALLBACK_GROUP@, gid)),
            None => None,
        },
    }
}

/// The group that the socket is handed to, with its number, by the text of the group file.
pub fn socket_group(content: &str) -> (r: Option<(&'static str, u32)>)
    ensures
        match r {
            Some((name, gid)) => chosen_group(content@) == Some((name@, gid as nat)),
            None => chosen_group(content@) is None,
        },
{
    if let Some(gid) = lookup_gid(content, SOCKET_GROUP) {
        return Some((SOCKET_GROUP, gid));
    }
    if let Some(gid) = lookup_gid(content, FALLBACK_GROUP) {
        return Some((FALLBACK_GROUP, gid));
    }
    None
}

// ---------------------------------------------------------------------------------------------
//  Laws
// ---------------------------------------------------------------------------------------------

/// Is this line about another group?
pub open spec fn about_another(line: Seq<char>, name: Seq<char>) -> bool {
    line != name && !(name + seq![':']).is_prefix_of(line)
}

proof fn lemma_other_groups_are_passed(ls: Seq<Seq<char>>, name: Seq<char>, i: int)
    requires
        0 <= i <= ls.len(),
        forall|j: int| 0 <= j < i ==> #[trigger] about_another(ls[j], name),
    ensures
        gid_on(ls, name) == gid_on(ls.skip(i), name),
    decreases i,
{
    if i == 0 {
        assert(ls.skip(0) =~= ls);
    } else {
        let rest = ls.skip(1);
        let line = ls[0];
        assert(about_another(line, name));
        lemma_until_splits(line, ':');
        let n = until(line, ':');
        assert(fields_of(line, ':', 4)[0] == line.take(n as int));
        if line.take(n as int) == name {
            if n == line.len() {
                assert(line.take(n as int) =~= line);
            } else {
                assert(line.take(n as int + 1) =~= name + seq![':']);
            }
        }
        assert forall|j: int| 0 <= j < i - 1 implies #[trigger] about_another(rest[j], name) by {
            assert(about_another(ls[j + 1], name));
        }
        lemma_other_groups_are_passed(rest, name, i - 1);
        assert(rest.skip(i - 1) =~= ls.skip(i));
    }
}

/// The number of a group stands after the second colon of the first line that begins with the name and
/// a colon.  What follows a third colon does not matter.
pub proof fn law_group_number_is_read_from_its_line(
    content: Seq<char>,
    name: Seq<char>,
    i: int,
    password: Seq<char>,
    gid: nat,
    rest: Seq<char>,
)
    requires
        0 <= i < lines_of(content).len(),
        lines_of(content)[i] == name + seq![':'] + (password + seq![':'] + (decimal(gid) + rest)),
        !name.contains(':'),
        !password.contains(':'),
        rest.len() > 0 ==> rest[0] == ':',
        forall|j: int| 0 <= j < i ==> #[trigger] about_another(lines_of(content)[j], name),
    ensures
        gid_of(content, name) == if gid <= u32::MAX {
            Some(gid)
        } else {
            None
        },
{
    let ls = lines_of(content);
    lemma_other_groups_are_passed(ls, name, i);
    let number = decimal(gid);
    let tail = number + rest;
    let middle = password + seq![':'] + tail;
    let line = name + seq![':'] + middle;
    assert(ls.skip(i)[0] == line);
    law_fields_end_at_separators(name, ':', middle, 2);
    law_fields_end_at_separators(password, ':', tail, 1);
    law_decimals_have_digits_only(gid);
    assert(!number.contains(':'));
    if rest.len() > 0 {
        let last = rest.skip(1);
        assert(tail =~= number + seq![':'] + last);
        law_fields_end_at_separators(number, ':', last, 0);
    } else {
        assert(tail =~= number);
        law_fields_end_at_separators(number, ':', rest, 1);
    }
    let fields = fields_of(line, ':', 4);
    assert(fields[0] == name);
    assert(fields[1] == password);
    assert(fields[2] == number);
    let none = Seq::<char>::empty();
    law_decimals_stand_out(none, gid, none, u32::MAX as nat);
    assert(none + number + none =~= number);
}

/// A group without a line has no number.
pub proof fn law_unlisted_group_has_no_number(content: Seq<char>, name: Seq<char>)
    requires
        forall|j: int|
            0 <= j < lines_of(content).len() ==> #[trigger] about_another(
                lines_of(content)[j],
                name,
            ),
    ensures
        gid_of(content, name) is None,
{
    lemma_other_groups_are_passed(lines_of(content), name, lines_of(content).len() as int);
}

/// The socket goes to the group `supaa` if that has a number, else to `wheel` if that has one, else to
/// none.
pub proof fn law_own_group_is_preferred(content: Seq<char>)
    ensures
        gid_of(content, "supaa"@) matches Some(gid) ==> chosen_group(content) == Some(
            ("supaa"@, gid),
        ),
        gid_of(content, "supaa"@) is None ==> (chosen_group(content) matches Some((name, gid))
            ==> name == "wheel"@ && gid_of(content, "wheel"@) == Some(gid)),
        chosen_group(content) is None <==> gid_of(content, "supaa"@) is None && gid_of(
            content,
            "wheel"@,
        ) is None,
{
}

/// The first line about a group decides, even where no number can be read from it.  White space around
/// the number does not matter.
pub proof fn law_first_line_decides(content: Seq<char>, name: Seq<char>, i: int)
    requires
        0 <= i < lines_of(content).len(),
        forall|j: int| 0 <= j < i ==> #[trigger] about_another(lines_of(content)[j], name),
        fields_of(lines_of(content)[i], ':', 4).len() > 0,
        fields_of(lines_of(content)[i], ':', 4)[0] == name,
    ensures
        fields_of(lines_of(content)[i], ':', 4).len() < 3 ==> gid_of(content, name) is None,
        fields_of(lines_of(content)[i], ':', 4).len() >= 3 ==> gid_of(content, name) == parsed(
            trimmed(fields_of(lines_of(content)[i], ':', 4)[2]),
            u32::MAX as nat,
        ),
{
    lemma_other_groups_are_passed(lines_of(content), name, i);
    assert(lines_of(content).skip(i)[0] == lines_of(content)[i]);
}

} // verus!
