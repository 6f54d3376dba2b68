//! Completing command names.
use vstd::prelude::*;

use crate::shell::arguments::bytes_of;
use crate::shell::commands::{command_name, lemma_command_names, name_of, COMMANDS};
use crate::shell::line::{Line, LineText};
use crate::text::{chars, has_prefix, starts_with};
use crate::vga_buffer::{advances, Screen, Writer};

verus! {

/// Those of the first `n` commands whose names begin with `prefix`.
pub open spec fn matching(prefix: Seq<char>, n: int) -> Seq<int>
    decreases n,
{
    if n <= 0 {
        Seq::empty()
    } else if starts_with(command_name(n - 1), prefix) {
        matching(prefix, n - 1).push(n - 1)
    } else {
        matching(prefix, n - 1)
    }
}

/// Number of characters, at most `limit`, in which two texts begin alike.
pub open spec fn shared_len(a: Seq<char>, b: Seq<char>, limit: int) -> int
    decreases a.len(),
{
    if limit <= 0 || a.len() == 0 || b.len() == 0 || a[0] != b[0] {
        0
    } else {
        1 + shared_len(a.skip(1), b.skip(1), limit - 1)
    }
}

/// Number of characters in which the names of some commands begin alike.
pub open spec fn common_len(found: Seq<int>) -> int
    decreases found.len(),
{
    if found.len() <= 1 {
        command_name(found[0]).len() as int
    } else {
        shared_len(
            command_name(found[0]),
            command_name(found.last()),
            common_len(found.drop_last()),
        )
    }
}

pub open spec fn print_names(s: Screen, found: Seq<int>) -> Screen
    decreases found.len(),
{
    if found.len() == 0 {
        s
    } else {
        print_names(s, found.drop_last()).print(command_name(found.last())).print("  "@)
    }
}

/// Whether completion applies: the cursor is behind the only word.
pub open spec fn completes(line: LineText) -> bool {
    &&& line.cursor == line.text.len()
    &&& forall|i: int| 0 <= i < line.text.len() ==> #[trigger] line.text[i] != 0x20
    &&& matching(chars(line.text), 13).len() > 0
}

/// The line with what all matches have in common, and a space behind it if
/// there is just one match.
pub open spec fn completion(line: LineText) -> LineText {
    let found = matching(chars(line.text), 13);
    let common = common_len(found);
    let extended = LineText {
        text: bytes_of(command_name(found[0]).take(common)),
        cursor: common,
        overflow: line.overflow,
    };
    if found.len() == 1 {
        extended.inserted(0x20)
    } else {
        extended
    }
}

/// Whether the matches have nothing more in common than what is typed.
pub open spec fn is_ambiguous(line: LineText) -> bool {
    let found = matching(chars(line.text), 13);
    found.len() > 1 && common_len(found) == line.text.len()
}

proof fn lemma_shared_len(a: Seq<char>, b: Seq<char>, limit: int)
    requires
        limit >= 0,
    ensures
        ({
            let k = shared_len(a, b, limit);
            &&& 0 <= k <= limit
            &&& k <= a.len()
            &&& k <= b.len()
            &&& forall|j: int| 0 <= j < k ==> #[trigger] a[j] == b[j]
            &&& k < limit ==> k == a.len() || k == b.len() || a[k] != b[k]
        }),
    decreases a.len(),
{
    if !(limit <= 0 || a.len() == 0 || b.len() == 0 || a[0] != b[0]) {
        lemma_shared_len(a.skip(1), b.skip(1), limit - 1);
        let k = shared_len(a, b, limit);
        assert forall|j: int| 0 <= j < k implies #[trigger] a[j] == b[j] by {
            if j > 0 {
                assert(a.skip(1)[j - 1] == b.skip(1)[j - 1]);
            }
        }
    }
}

pub proof fn lemma_matching(prefix: Seq<char>, n: int)
    requires
        n <= 13,
    ensures
        matching(prefix, n).len() <= n || n < 0,
        forall|k: int|
            0 <= k < matching(prefix, n).len() ==> 0 <= #[trigger] matching(prefix, n)[k] < n
                && starts_with(command_name(matching(prefix, n)[k]), prefix),
        forall|i: int|
            0 <= i < n && starts_with(#[trigger] command_name(i), prefix) ==> matching(
                prefix,
                n,
            ).contains(i),
    decreases n,
{
    if n > 0 {
        lemma_matching(prefix, n - 1);
        let before = matching(prefix, n - 1);
        let found = matching(prefix, n);
        assert forall|i: int|
            0 <= i < n && starts_with(#[trigger] command_name(i), prefix) implies found.contains(
            i,
        ) by {
            if i < n - 1 {
                let k = choose|k: int| 0 <= k < before.len() && before[k] == i;
                assert(found[k] == i);
            } else {
                assert(found[before.len() as int] == i);
            }
        }
    }
}

pub proof fn lemma_common_len(prefix: Seq<char>, found: Seq<int>)
    requires
        found.len() > 0,
        forall|k: int|
            0 <= k < found.len() ==> starts_with(command_name(#[trigger] found[k]), prefix),
    ensures
        prefix.len() <= common_len(found),
        forall|k: int|
            0 <= k < found.len() ==> common_len(found) <= command_name(#[trigger] found[k]).len(),
        forall|k: int|
            0 <= k < found.len() ==> command_name(#[trigger] found[k]).take(common_len(found))
                == command_name(found[0]).take(common_len(found)),
    decreases found.len(),
{
    let first = command_name(found[0]);
    let common = common_len(found);
    if found.len() > 1 {
        let before = found.drop_last();
        assert forall|k: int| 0 <= k < before.len() implies starts_with(
            command_name(#[trigger] before[k]),
            prefix,
        ) by {
            assert(before[k] == found[k]);
        }
        lemma_common_len(prefix, before);
        let last = command_name(found.last());
        lemma_shared_len(first, last, common_len(before));
        assert(starts_with(command_name(found[found.len() - 1]), prefix));
        assert(starts_with(command_name(found[0]), prefix));
        assert(common >= prefix.len()) by {
            if common < prefix.len() {
                assert(first[common] == prefix[common]) by {
                    assert(first.take(prefix.len() as int)[common] == prefix[common]);
                }
                assert(last[common] == prefix[common]) by {
                    assert(last.take(prefix.len() as int)[common] == prefix[common]);
                }
            }
        }
        assert forall|k: int| 0 <= k < found.len() implies common <= command_name(
            #[trigger] found[k],
        ).len() && command_name(found[k]).take(common) == first.take(common) by {
            let name = command_name(found[k]);
            if k < found.len() - 1 {
                assert(found[k] == before[k]);
                let wide = common_len(before);
                assert(name.take(wide) == first.take(wide));
                assert(name.take(common) =~= name.take(wide).take(common));
                assert(first.take(common) =~= first.take(wide).take(common));
            } else {
                assert(name.take(common) =~= first.take(common));
            }
        }
    } else {
        assert(starts_with(command_name(found[0]), prefix));
    }
}

/// The first match begins with the prefix, and is one of the commands.
pub proof fn lemma_first_match(prefix: Seq<char>)
    requires
        matching(prefix, 13).len() > 0,
    ensures
        0 <= matching(prefix, 13)[0] < 13,
        starts_with(command_name(matching(prefix, 13)[0]), prefix),
{
    lemma_matching(prefix, 13);
}

/// Completion keeps what was typed and adds to it only what every command that
/// begins so goes on with.
pub proof fn lemma_completion_is_common(line: LineText)
    requires
        line.wf(),
        completes(line),
        matching(chars(line.text), 13).len() > 1,
    ensures
        starts_with(chars(completion(line).text), chars(line.text)),
        forall|i: int|
            0 <= i < 13 && starts_with(#[trigger] command_name(i), chars(line.text))
                ==> starts_with(command_name(i), chars(completion(line).text)),
{
    let prefix = chars(line.text);
    let found = matching(prefix, 13);
    lemma_matching(prefix, 13);
    lemma_common_len(prefix, found);
    let common = common_len(found);
    let first = command_name(found[0]);
    lemma_command_names(found[0]);
    let text = chars(completion(line).text);
    assert(common <= command_name(found[0]).len());
    assert(text =~= first.take(common)) by {
        assert forall|k: int| 0 <= k < common implies text[k] == first[k] by {}
    }
    assert(starts_with(command_name(found[0]), prefix));
    assert(text.take(prefix.len() as int) =~= first.take(prefix.len() as int));
    assert forall|i: int|
        0 <= i < 13 && starts_with(#[trigger] command_name(i), prefix) implies starts_with(
        command_name(i),
        text,
    ) by {
        let k = choose|k: int| 0 <= k < found.len() && found[k] == i;
        assert(command_name(found[k]).take(common) == first.take(common));
    }
}

/// A word that only one command begins with becomes that command's name and a
/// space.
pub proof fn lemma_unique_completion(line: LineText, index: int)
    requires
        line.wf(),
        completes(line),
        matching(chars(line.text), 13) == seq![index],
    ensures
        chars(completion(line).text) == command_name(index).push(' '),
        completion(line).cursor == command_name(index).len() + 1,
{
    let name = command_name(index);
    lemma_command_names(index);
    assert(name.take(name.len() as int) =~= name);
    let text = chars(completion(line).text);
    assert(completion(line).text =~= bytes_of(name).push(0x20));
    assert forall|k: int| 0 <= k < name.len() implies text[k] == name[k] by {}
    assert(text =~= name.push(' '));
}

fn common_chars(a: &str, b: &str, limit: usize) -> (count: usize)
    ensures
        count == shared_len(a@, b@, limit as int),
        count <= limit,
{
    let a_len: usize = a.unicode_len();
    let b_len: usize = b.unicode_len();
    let mut i: usize = 0;
    assert(a@.skip(0) =~= a@);
    assert(b@.skip(0) =~= b@);
    while i < limit && i < a_len && i < b_len && a.get_char(i) == b.get_char(i)
        invariant
            i <= limit,
            i <= a_len,
            i <= b_len,
            a_len == a@.len(),
            b_len == b@.len(),
            shared_len(a@, b@, limit as int) == i + shared_len(
                a@.skip(i as int),
                b@.skip(i as int),
                limit - i,
            ),
        decreases limit - i,
    {
        assert(a@.skip(i as int).skip(1) =~= a@.skip(i + 1));
        assert(b@.skip(i as int).skip(1) =~= b@.skip(i + 1));
        i += 1;
    }
    i
}

/// The matches of a prefix: the first of them, what all have in common, and
/// how many there are.
pub fn find_matches(prefix: &str) -> (found: Option<(usize, usize, usize)>)
    ensures
        match found {
            Some((first, common, count)) => {
                let indices = matching(prefix@, 13);
                &&& indices.len() > 0
                &&& first == indices[0]
                &&& first < 13
                &&& common == common_len(indices)
                &&& count == indices.len()
                &&& prefix@.len() <= common <= command_name(indices[0]).len()
            },
            None => matching(prefix@, 13).len() == 0,
        },
{
    let mut first: usize = 0;
    let mut common: usize = 0;
    let mut count: usize = 0;
    let mut i: usize = 0;
    while i < COMMANDS
        invariant
            i <= 13,
            count <= i,
            count == matching(prefix@, i as int).len(),
            count > 0 ==> first == matching(prefix@, i as int)[0] && first < 13,
            count > 0 ==> common == common_len(matching(prefix@, i as int)),
        decreases 13 - i,
    {
        let ghost before = matching(prefix@, i as int);
        let name: &str = name_of(i);
        i += 1;
        if has_prefix(name, prefix) {
            let ghost found = matching(prefix@, i as int);
            assert(found.drop_last() =~= before);
            if count == 0 {
                first = i - 1;
                common = name.unicode_len();
            } else {
                common = common_chars(name_of(first), name, common);
            }
            count += 1;
        }
    }
    if count == 0 {
        return None;
    }
    proof {
        lemma_matching(prefix@, 13);
        lemma_common_len(prefix@, matching(prefix@, 13));
        assert(common <= command_name(matching(prefix@, 13)[0]).len());
    }
    Some((first, common, count))
}

/// Print the names of all matches.
pub fn write_names(prefix: &str, writer: &mut Writer)
    requires
        old(writer)@.room(600),
    ensures
        final(writer)@ == print_names(old(writer)@, matching(prefix@, 13)),
        advances(old(writer)@, final(writer)@, 600),
{
    proof {
        reveal_strlit("  ");
    }
    let mut i: usize = 0;
    while i < COMMANDS
        invariant
            i <= 13,
            "  "@.len() == 2,
            old(writer)@.room(600),
            writer@ == print_names(old(writer)@, matching(prefix@, i as int)),
            advances(old(writer)@, writer@, 44 * i),
        decreases 13 - i,
    {
        let name: &str = name_of(i);
        if has_prefix(name, prefix) {
            assert(matching(prefix@, i + 1).drop_last() =~= matching(prefix@, i as int));
            writer.write_str(name);
            writer.write_str("  ");
        }
        i += 1;
    }
}

/// Append to a line the characters of a command's name from the line's end on
/// up to `common`.
pub fn extend(line: &mut Line, index: usize, common: usize)
    requires
        old(line).wf(),
        index < 13,
        old(line)@.cursor == old(line)@.text.len(),
        starts_with(command_name(index as int), chars(old(line)@.text)),
        old(line)@.text.len() <= common <= command_name(index as int).len(),
    ensures
        final(line).wf(),
        final(line)@ == (LineText {
            text: bytes_of(command_name(index as int).take(common as int)),
            cursor: common as int,
            overflow: old(line)@.overflow,
        }),
{
    let name: &str = name_of(index);
    let start: usize = line.len;
    let mut i: usize = start;
    proof {
        lemma_command_names(index as int);
        let typed = chars(line@.text);
        assert(name@.take(start as int) == typed);
        assert(bytes_of(name@.take(start as int)) =~= line@.text);
    }
    while i < common
        invariant
            start <= i <= common <= name@.len() <= 9,
            name@ == command_name(index as int),
            forall|k: int|
                0 <= k < name@.len() ==> 0x61 <= #[trigger] command_name(index as int)[k] as int
                    <= 0x7a,
            line.wf(),
            line@.text == bytes_of(name@.take(i as int)),
            line@.cursor == i,
            line@.overflow == old(line)@.overflow,
        decreases common - i,
    {
        let c: char = name.get_char(i);
        assert(c == command_name(index as int)[i as int]);
        let _ = line.insert(c as u8);
        assert(bytes_of(name@.take(i + 1)) =~= bytes_of(name@.take(i as int)).insert(
            i as int,
            c as u8,
        ));
        i += 1;
    }
}

} // verus!
