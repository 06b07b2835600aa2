//! Text the library builds and reads: decimal numbers, file extensions and
//! comparisons that ignore the case of ASCII letters.

use vstd::prelude::*;

verus! {

/// The character of one decimal digit.
pub open spec fn digit(value: nat) -> char {
    if value == 0 {
        '0'
    } else if value == 1 {
        '1'
    } else if value == 2 {
        '2'
    } else if value == 3 {
        '3'
    } else if value == 4 {
        '4'
    } else if value == 5 {
        '5'
    } else if value == 6 {
        '6'
    } else if value == 7 {
        '7'
    } else if value == 8 {
        '8'
    } else {
        '9'
    }
}

/// `value` in decimal, without leading zeros.
pub open spec fn decimal_text(value: nat) -> Seq<char>
    decreases value,
{
    if value < 10 {
        seq![digit(value)]
    } else {
        decimal_text(value / 10) + seq![digit(value % 10)]
    }
}

/// `value` in decimal, with a leading minus sign when it is negative.
pub open spec fn signed_text(value: int) -> Seq<char> {
    if value < 0 {
        "-"@ + decimal_text((-value) as nat)
    } else {
        decimal_text(value as nat)
    }
}

fn digit_str(value: u64) -> (text: &'static str)
    requires
        value < 10,
    ensures
        text@ == seq![digit(value as nat)],
{
    proof {
        reveal_strlit("0");
        reveal_strlit("1");
        reveal_strlit("2");
        reveal_strlit("3");
        reveal_strlit("4");
        reveal_strlit("5");
        reveal_strlit("6");
        reveal_strlit("7");
        reveal_strlit("8");
        reveal_strlit("9");
    }
    match value {
        0 => "0",
        1 => "1",
        2 => "2",
        3 => "3",
        4 => "4",
        5 => "5",
        6 => "6",
        7 => "7",
        8 => "8",
        _ => "9",
    }
}

/// Writes a number in decimal.
pub fn decimal(value: u64) -> (text: String)
    ensures
        text@ == decimal_text(value as nat),
    decreases value,
{
    if value < 10 {
        String::from_str(digit_str(value))
    } else {
        let mut text = decimal(value / 10);
        text.append(digit_str(value % 10));
        text
    }
}

/// Writes a signed number in decimal.
pub fn decimal_signed(value: i64) -> (text: String)
    ensures
        text@ == signed_text(value as int),
{
    if value < 0 {
        // The magnitude of the smallest value does not fit its own type.
        let magnitude: u64 = (-(value + 1)) as u64 + 1;
        let mut text = String::from_str("-");
        let digits = decimal(magnitude);
        text.append(digits.as_str());
        text
    } else {
        decimal(value as u64)
    }
}

/// Compares two texts character by character.
pub fn eq_text(left: &str, right: &str) -> (same: bool)
    ensures
        same == (left@ == right@),
{
    let len: usize = left.unicode_len();
    if len != right.unicode_len() {
        return false;
    }
    let mut at: usize = 0;
    while at < len
        invariant
            at <= len,
            len == left@.len(),
            len == right@.len(),
            forall|i: int| 0 <= i < at ==> left@[i] == right@[i],
        decreases len - at,
    {
        if left.get_char(at) != right.get_char(at) {
            return false;
        }
        at += 1;
    }
    assert(left@ =~= right@);
    true
}

/// `letter` with an ASCII capital replaced by its small letter.
pub open spec fn lower(letter: char) -> char {
    if 'A' <= letter && letter <= 'Z' {
        (letter as u32 + 32) as char
    } else {
        letter
    }
}

/// Whether two texts are the same once the case of ASCII letters is ignored.
pub open spec fn same_text(left: Seq<char>, right: Seq<char>) -> bool {
    &&& left.len() == right.len()
    &&& forall|i: int| 0 <= i < left.len() ==> lower(#[trigger] left[i]) == lower(right[i])
}

fn lowered(letter: char) -> (small: u32)
    ensures
        small == lower(letter) as u32,
{
    let code: u32 = letter as u32;
    if 65 <= code && code <= 90 {
        code + 32
    } else {
        code
    }
}

/// Compares two texts without regard to the case of ASCII letters.
pub fn eq_ignore_case(left: &str, right: &str) -> (same: bool)
    ensures
        same == same_text(left@, right@),
{
    let len: usize = left.unicode_len();
    if len != right.unicode_len() {
        return false;
    }
    let mut at: usize = 0;
    while at < len
        invariant
            at <= len,
            len == left@.len(),
            len == right@.len(),
            forall|i: int| 0 <= i < at ==> lower(#[trigger] left@[i]) == lower(right@[i]),
        decreases len - at,
    {
        if lowered(left.get_char(at)) != lowered(right.get_char(at)) {
            assert(lower(left@[at as int]) != lower(right@[at as int]));
            return false;
        }
        at += 1;
    }
    true
}

/// Whether a character stands between the components of a path on some platform.
pub open spec fn separates(letter: char) -> bool {
    letter == '/' || letter == '\\' || letter == ':'
}

/// Whether `/` is all that stands between the components of a path.
pub open spec fn has_plain_separators(path: Seq<char>) -> bool {
    !path.contains('\\') && !path.contains(':')
}

/// Where what follows the last of the characters that stand between components
/// on some platform starts.
pub open spec fn tail_start(path: Seq<char>) -> nat
    decreases path.len(),
{
    if path.len() == 0 || separates(path.last()) {
        path.len()
    } else {
        tail_start(path.drop_last())
    }
}

/// What follows the last of the characters that stand between components on some
/// platform.
pub open spec fn tail(path: Seq<char>) -> Seq<char> {
    path.skip(tail_start(path) as int)
}

/// Whether a path starts the way the name of a share does.
pub open spec fn starts_like_share(path: Seq<char>) -> bool {
    path.len() >= 2 && separates(path[0]) && separates(path[1])
}

/// Where the first slash or backslash at or behind `from` is, or the end of the
/// path.
pub open spec fn next_slash(path: Seq<char>, from: int) -> int
    decreases path.len() - from,
{
    if from >= path.len() || path[from] == '/' || path[from] == '\\' {
        from
    } else {
        next_slash(path, from + 1)
    }
}

/// Whether a path names a file of a share: two slashes or backslashes, the name
/// of a server, the name of a share, and behind them a name at the end of the
/// path that starts with no `.`. A server whose name starts with a `?` or a `.`
/// may be one of the names a platform keeps for its own devices.
pub open spec fn names_file_of_share(path: Seq<char>) -> bool {
    let server_end = next_slash(path, 2);
    let share_end = next_slash(path, server_end + 1);
    &&& starts_like_share(path) && path[0] != ':' && path[1] != ':'
    &&& 2 < server_end && server_end + 1 < share_end < path.len()
    &&& path[2] != '?' && path[2] != '.'
    &&& tail(path).len() > 0 && tail(path)[0] != '.'
}

/// Whether every platform finds the same extension at the end of `path`: it does
/// not start the way the name of a share does, or names a file of one, and where
/// a backslash or a colon stands in it, a name that starts with no `.` stands at
/// its end.
pub open spec fn plain_path(path: Seq<char>) -> bool {
    &&& !starts_like_share(path) || names_file_of_share(path)
    &&& has_plain_separators(path) || (tail(path).len() > 0 && tail(path)[0] != '.')
}

/// Where the last component of a plain path that ends in none of its
/// separators starts.
pub open spec fn component_start(path: Seq<char>) -> nat
    decreases path.len(),
{
    if path.len() == 0 || path.last() == '/' {
        path.len()
    } else {
        component_start(path.drop_last())
    }
}

/// The final component of a plain path, which is none for a path that ends in
/// `..` and for one that names no component at all. Separators at the end are
/// ignored, and so is a `.` that something stands before.
pub open spec fn file_name_text(path: Seq<char>) -> Option<Seq<char>>
    decreases path.len(),
{
    if path.len() == 0 {
        None
    } else if path.last() == '/' {
        file_name_text(path.drop_last())
    } else {
        let start = component_start(path);
        let name = path.skip(start as int);
        if name == seq!['.'] {
            if 0 < start < path.len() {
                file_name_text(path.take(start as int))
            } else {
                None
            }
        } else if name == seq!['.', '.'] {
            None
        } else {
            Some(name)
        }
    }
}

/// The part of a file name after its final `.`, which a name that starts with
/// its only one does not have.
pub open spec fn name_extension(name: Seq<char>) -> Option<Seq<char>>
    decreases name.len(),
{
    if name.len() <= 1 {
        None
    } else if name.last() == '.' {
        Some(Seq::empty())
    } else {
        match name_extension(name.drop_last()) {
            Some(extension) => Some(extension.push(name.last())),
            None => None,
        }
    }
}

/// The extension every platform finds at the end of a plain path.
pub open spec fn extension_text(path: Seq<char>) -> Option<Seq<char>> {
    if has_plain_separators(path) {
        match file_name_text(path) {
            Some(name) => name_extension(name),
            None => None,
        }
    } else {
        name_extension(tail(path))
    }
}

/// Whether a platform may find `extension` at the end of a plain path: the one
/// every platform finds or, on a platform that takes a backslash or a colon for a
/// letter, one with such a letter in it where the others find none.
pub open spec fn found_at_the_end(extension: Option<Seq<char>>, path: Seq<char>) -> bool {
    ||| extension == extension_text(path)
    ||| {
        &&& extension_text(path) is None
        &&& !has_plain_separators(path)
        &&& extension matches Some(found) && !has_plain_separators(found)
    }
}

/// The view of an optional text.
pub open spec fn text_view(text: Option<String>) -> Option<Seq<char>> {
    match text {
        Some(text) => Some(text@),
        None => None,
    }
}

/// `std::path::Path::extension`: the part of the path's final component after
/// its final `.`. A platform that takes a backslash or a colon for a letter splits
/// a path at fewer places than one that does not, so what it finds may have such a
/// letter in it. One that knows shares takes the names of the server and of the
/// share for a prefix that no component belongs to. Nothing is claimed of a path
/// that starts like the name of a share and names no file of it, or that has a `.`
/// right behind a backslash or a colon.
#[verifier::external_body]
fn path_extension(path: &str) -> (extension: Option<String>)
    ensures
        plain_path(path@) ==> found_at_the_end(text_view(extension), path@),
{
    std::path::Path::new(path)
        .extension()
        .and_then(|extension| extension.to_str())
        .map(|extension| extension.to_owned())
}

/// Whether a plain path has the extension `known`, whatever its case.
pub open spec fn has_extension(path: Seq<char>, known: Seq<char>) -> bool {
    match extension_text(path) {
        Some(extension) => same_text(extension, known),
        None => false,
    }
}

/// Whether an extension is `known`, whatever its case.
pub fn extension_is(extension: &Option<String>, known: &str) -> (same: bool)
    ensures
        same == (match text_view(*extension) {
            Some(extension) => same_text(extension, known@),
            None => false,
        }),
{
    match extension {
        Some(extension) => eq_ignore_case(extension.as_str(), known),
        None => false,
    }
}

proof fn lemma_letter_keeps_apart(found: Seq<char>, known: Seq<char>)
    requires
        has_plain_separators(known),
        !has_plain_separators(found),
    ensures
        !same_text(found, known),
{
    let letter = if found.contains('\\') {
        '\\'
    } else {
        ':'
    };
    let at = choose|at: int| 0 <= at < found.len() && found[at] == letter;
    if same_text(found, known) {
        assert(lower(found[at]) == found[at]);
        assert(lower(found[at]) == lower(known[at]));
        assert(known[at] == found[at]);
        assert(known.contains(known[at]));
    }
}

/// Whether a path has the extension `known`, whatever its case.
pub fn path_has_extension(path: &str, known: &str) -> (same: bool)
    ensures
        plain_path(path@) && has_plain_separators(known@) ==> same == has_extension(
            path@,
            known@,
        ),
{
    let extension = path_extension(path);
    proof {
        if plain_path(path@) && has_plain_separators(known@) && text_view(extension)
            != extension_text(path@) {
            lemma_letter_keeps_apart(text_view(extension).unwrap(), known@);
        }
    }
    extension_is(&extension, known)
}

proof fn lemma_behind_the_dot(front: Seq<char>, behind: Seq<char>)
    requires
        front.len() > 0,
        !behind.contains('.'),
    ensures
        name_extension(front + seq!['.'] + behind) == Some(behind),
    decreases behind.len(),
{
    let name = front + seq!['.'] + behind;
    if behind.len() == 0 {
        assert(name.last() == '.');
        assert(behind =~= Seq::empty());
    } else {
        let shorter = behind.drop_last();
        assert(name.last() == behind.last());
        assert(behind.last() == behind[behind.len() - 1]);
        assert forall|at: int| 0 <= at < shorter.len() implies shorter[at] != '.' by {
            assert(shorter[at] == behind[at]);
        }
        assert(!shorter.contains('.'));
        lemma_behind_the_dot(front, shorter);
        assert(name.drop_last() =~= front + seq!['.'] + shorter);
        assert(shorter.push(behind.last()) =~= behind);
    }
}

proof fn lemma_no_dot(name: Seq<char>)
    requires
        forall|at: int| 1 <= at < name.len() ==> name[at] != '.',
    ensures
        name_extension(name) is None,
    decreases name.len(),
{
    if name.len() > 1 {
        assert(name.last() == name[name.len() - 1]);
        assert forall|at: int| 1 <= at < name.drop_last().len() implies name.drop_last()[at]
            != '.' by {
            assert(name.drop_last()[at] == name[at]);
        }
        lemma_no_dot(name.drop_last());
    }
}

proof fn lemma_same_start(front: Seq<char>, behind: Seq<char>)
    requires
        forall|at: int| 0 <= at < behind.len() ==> !separates(#[trigger] behind[at]),
    ensures
        tail_start(front + behind) == tail_start(front),
        component_start(front + behind) == component_start(front),
        tail_start(front) <= front.len(),
        component_start(front) <= front.len(),
    decreases behind.len(), front.len(),
{
    if behind.len() > 0 {
        let shorter = behind.drop_last();
        let path = front + behind;
        assert(path.last() == behind[behind.len() - 1]);
        assert(path.drop_last() =~= front + shorter);
        assert forall|at: int| 0 <= at < shorter.len() implies !separates(
            #[trigger] shorter[at],
        ) by {
            assert(shorter[at] == behind[at]);
        }
        lemma_same_start(front, shorter);
    } else {
        assert(front + behind =~= front);
        if front.len() > 0 {
            lemma_same_start(front.drop_last(), behind);
            assert(front.drop_last() + behind =~= front.drop_last());
        }
    }
}

/// A path ends in the extension that is written behind its last dot: of
/// `stem.behind`, where `stem` ends in a letter of the file's own name and `behind`
/// holds neither a dot nor a separator, the extension is `behind`, and it is known
/// whatever the case of its letters.
pub proof fn an_extension_is_what_stands_behind_the_last_dot(
    stem: Seq<char>,
    behind: Seq<char>,
    known: Seq<char>,
)
    requires
        stem.len() > 0,
        stem.last() != '/' && stem.last() != '\\' && stem.last() != ':',
        behind.len() > 0,
        forall|at: int|
            0 <= at < behind.len() ==> #[trigger] behind[at] != '.' && behind[at] != '/'
                && behind[at] != '\\' && behind[at] != ':',
    ensures
        extension_text(stem + seq!['.'] + behind) == Some(behind),
        has_extension(stem + seq!['.'] + behind, known) == {
            &&& behind.len() == known.len()
            &&& forall|at: int|
                0 <= at < behind.len() ==> {
                    let left = #[trigger] behind[at] as int;
                    let right = known[at] as int;
                    ||| left == right
                    ||| 65 <= left <= 90 && right == left + 32
                    ||| 65 <= right <= 90 && left == right + 32
                }
        },
{
    let path = stem + seq!['.'] + behind;
    let added = seq!['.'] + behind;
    assert(path =~= stem + added);
    assert forall|at: int| 0 <= at < added.len() implies !separates(#[trigger] added[at]) by {
        if at > 0 {
            assert(added[at] == behind[at - 1]);
        }
    }
    lemma_same_start(stem, added);
    assert(tail_start(stem) < stem.len() && component_start(stem) < stem.len()) by {
        lemma_same_start(stem.drop_last(), Seq::empty());
    }
    let start = if has_plain_separators(path) {
        component_start(path) as int
    } else {
        tail_start(path) as int
    };
    let front = stem.skip(start);
    let name = path.skip(start);
    assert(name =~= front + seq!['.'] + behind);
    assert(name.len() >= 3);
    assert(path.last() == behind[behind.len() - 1]);
    assert(name != seq!['.'] && name != seq!['.', '.']);
    assert(!behind.contains('.'));
    lemma_behind_the_dot(front, behind);
    assert forall|at: int| 0 <= at < behind.len() implies (lower(#[trigger] behind[at]) == lower(
        known[at],
    )) == ({
        let left = behind[at] as int;
        let right = known[at] as int;
        ||| left == right
        ||| 65 <= left <= 90 && right == left + 32
        ||| 65 <= right <= 90 && left == right + 32
    }) by {}
}

/// A file name without a dot behind its first letter has no extension, whatever
/// the directory it is in is called.
pub proof fn a_name_without_a_dot_has_no_extension(
    directory: Seq<char>,
    name: Seq<char>,
    known: Seq<char>,
)
    requires
        name.len() > 0,
        name[0] != '.',
        forall|at: int|
            0 <= at < name.len() ==> #[trigger] name[at] != '.' && name[at] != '/' && name[at]
                != '\\' && name[at] != ':',
        directory.len() == 0 || directory.last() == '/',
    ensures
        !has_extension(directory + name, known),
{
    let path = directory + name;
    lemma_same_start(directory, name);
    assert(tail_start(directory) == directory.len());
    assert(component_start(directory) == directory.len());
    assert(path.skip(directory.len() as int) =~= name);
    assert(path.last() == name[name.len() - 1]);
    assert(name[0] != '.');
    lemma_no_dot(name);
}

/// A number is written with its own digits: the last stands for what is left over by ten,
/// and what stands before it is the number of whole tens. A minus stands before a negative
/// one alone.
pub proof fn a_number_is_written_with_its_own_digits(value: nat)
    ensures
        decimal_text(value).len() > 0,
        decimal_text(value).last() as int == 0x30 + value % 10,
        value >= 10 ==> decimal_text(value).drop_last() == decimal_text(value / 10),
        value < 10 ==> decimal_text(value).len() == 1,
        signed_text(value as int) == decimal_text(value),
        value > 0 ==> signed_text(-(value as int)) == seq!['-'] + decimal_text(value),
{
    reveal_strlit("-");
    if value >= 10 {
        assert(decimal_text(value).drop_last() =~= decimal_text(value / 10));
    }
    assert("-"@ =~= seq!['-']);
}

} // verus!
