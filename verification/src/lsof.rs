//! The slow collection: the commands that ask `lsof` about a process, and what their
//! output says.

use vstd::prelude::*;
use vstd::utf8::{decode_utf8, valid_utf8};

use crate::process::{opt_text, SlowFields, SlowView};
use crate::text::{chars_of, decimal, lines, push_decimal, split_lines, texts};
use crate::text::{is_digit, lemma_decimal_digits, lemma_decimal_value, numeral_value};
use crate::text::{law_line_ends_at_its_line_feed, law_lines_of_one_text_behind_another};

verus! {

/// What a finished command left behind.
#[derive(Debug, Clone)]
pub struct CommandOutput {
    /// Whether it ended with exit status zero.
    pub success: bool,
    /// What it wrote to its standard output.
    pub stdout: Vec<u8>,
}

/// A command line, behind `sudo` where that is asked for.
pub open spec fn command_line(args: Seq<Seq<char>>, use_sudo: bool) -> Seq<Seq<char>> {
    if use_sudo {
        seq!["sudo"@] + args
    } else {
        args
    }
}

/// The `lsof` call that names the working directory of `pid`.
pub open spec fn cwd_args(pid: u32) -> Seq<Seq<char>> {
    seq!["/usr/bin/lsof"@, "-p"@, decimal(pid as nat), "-a"@, "-d"@, "cwd"@, "-Fn"@]
}

/// The `lsof` call that lists the open files of `pid`.
pub open spec fn fds_args(pid: u32) -> Seq<Seq<char>> {
    seq!["/usr/bin/lsof"@, "-p"@, decimal(pid as nat)]
}

/// The part that both command lines begin with.
fn lsof_start(pid: u32, use_sudo: bool) -> (line: Vec<String>)
    ensures
        texts(line@) == command_line(fds_args(pid), use_sudo),
{
    let mut line: Vec<String> = Vec::new();
    if use_sudo {
        line.push("sudo".to_string());
    }
    line.push("/usr/bin/lsof".to_string());
    line.push("-p".to_string());
    let mut number = String::new();
    push_decimal(&mut number, pid as u64);
    assert(number@ =~= decimal(pid as nat));
    line.push(number);
    assert(texts(line@) =~= command_line(fds_args(pid), use_sudo));
    line
}

/// The command line that asks for the working directory of `pid`: the program, then its
/// arguments.
pub fn lsof_cwd_command(pid: u32, use_sudo: bool) -> (line: Vec<String>)
    ensures
        texts(line@) == command_line(cwd_args(pid), use_sudo),
{
    let mut line = lsof_start(pid, use_sudo);
    let ghost start = texts(line@);
    line.push("-a".to_string());
    line.push("-d".to_string());
    line.push("cwd".to_string());
    line.push("-Fn".to_string());
    assert(texts(line@) =~= start + seq!["-a"@, "-d"@, "cwd"@, "-Fn"@]);
    assert(texts(line@) =~= command_line(cwd_args(pid), use_sudo));
    line
}

/// The command line that asks for the open files of `pid`: the program, then its
/// arguments.
pub fn lsof_num_fds_command(pid: u32, use_sudo: bool) -> (line: Vec<String>)
    ensures
        texts(line@) == command_line(fds_args(pid), use_sudo),
{
    lsof_start(pid, use_sudo)
}

/// The text that bytes stand for when whatever is not UTF-8 is replaced by U+FFFD.
pub uninterp spec fn utf8_lossy(bytes: Seq<u8>) -> Seq<char>;

/// Reads bytes as text.
///
/// Calls `String::from_utf8_lossy` of the standard library. Its result is a function of
/// the bytes, named [`utf8_lossy`]; bytes that are valid UTF-8 come out as the text that
/// they encode. How invalid bytes are replaced is left to that function.
#[verifier::external_body]
fn lossy_text(bytes: &Vec<u8>) -> (text: String)
    ensures
        text@ == utf8_lossy(bytes@),
        valid_utf8(bytes@) ==> text@ == decode_utf8(bytes@),
{
    String::from_utf8_lossy(bytes).into_owned()
}

/// The command ran and either succeeded or wrote something.
pub open spec fn is_usable(out: Option<CommandOutput>) -> bool {
    match out {
        Some(done) => done.success || done.stdout@.len() > 0,
        None => false,
    }
}

/// The text of the output of a command, where the output is usable.
pub open spec fn output_text(out: Option<CommandOutput>) -> Option<Seq<char>> {
    if is_usable(out) {
        Some(utf8_lossy(out->0.stdout@))
    } else {
        None
    }
}

fn usable_text(out: &Option<CommandOutput>) -> (text: Option<String>)
    ensures
        opt_text(text) == output_text(*out),
        is_usable(*out) && valid_utf8(out->0.stdout@) ==> output_text(*out) == Some(
            decode_utf8(out->0.stdout@),
        ),
{
    match out {
        Some(done) => {
            if !done.success && done.stdout.is_empty() {
                None
            } else {
                Some(lossy_text(&done.stdout))
            }
        },
        None => None,
    }
}

/// A line that names a directory other than the root: the field letter `n`, then the path.
pub open spec fn names_directory(line: Seq<char>) -> bool {
    line.len() > 1 && line[0] == 'n' && line.skip(1) != seq!['/']
}

/// The directory that the first such line names.
pub open spec fn directory_in(list: Seq<Seq<char>>) -> Option<Seq<char>>
    decreases list.len(),
{
    if list.len() == 0 {
        None
    } else if names_directory(list[0]) {
        Some(list[0].skip(1))
    } else {
        directory_in(list.skip(1))
    }
}

/// The path in a line that names a directory.
fn directory_of_line(line: &String) -> (path: Option<String>)
    ensures
        opt_text(path) == if names_directory(line@) {
            Some(line@.skip(1))
        } else {
            None
        },
{
    let chars = chars_of(line.as_str());
    if chars.len() < 2 || chars[0] != 'n' {
        return None;
    }
    if chars.len() == 2 && chars[1] == '/' {
        assert(line@.skip(1) =~= seq!['/']);
        return None;
    }
    proof {
        if line@.skip(1) == seq!['/'] {
            assert(line@.skip(1).len() == 1);
            assert(line@.skip(1)[0] == '/');
            assert(line@[1] == '/');
            assert(false);
        }
    }
    let mut path = String::new();
    let mut i: usize = 1;
    while i < chars.len()
        invariant
            chars@ == line@,
            1 <= i <= chars.len(),
            path@ == line@.subrange(1, i as int),
        decreases chars.len() - i,
    {
        path.push(chars[i]);
        i = i + 1;
        assert(path@ =~= line@.subrange(1, i as int));
    }
    assert(path@ =~= line@.skip(1));
    Some(path)
}

/// The working directory that the field output of `lsof` names.
pub fn parse_cwd(text: &str) -> (cwd: Option<String>)
    ensures
        opt_text(cwd) == directory_in(lines(text@)),
{
    let list = split_lines(text);
    let ghost all = lines(text@);
    let mut i: usize = 0;
    assert(all.skip(0) =~= all);
    while i < list.len()
        invariant
            texts(list@) == all,
            all == lines(text@),
            i <= list.len(),
            directory_in(all) == directory_in(all.skip(i as int)),
        decreases list.len() - i,
    {
        assert(all.skip(i as int)[0] == list@[i as int]@);
        assert(all.skip(i as int).skip(1) =~= all.skip(i + 1));
        if let Some(path) = directory_of_line(&list[i]) {
            return Some(path);
        }
        i = i + 1;
    }
    None
}

/// The working directory of a process, from the output of [`lsof_cwd_command`]; `None`
/// stands for a command that did not run.
pub fn lsof_cwd(out: &Option<CommandOutput>) -> (cwd: Option<String>)
    ensures
        opt_text(cwd) == match output_text(*out) {
            Some(text) => directory_in(lines(text)),
            None => None,
        },
        is_usable(*out) && valid_utf8(out->0.stdout@) ==> opt_text(cwd)
            == directory_in(lines(decode_utf8(out->0.stdout@))),
{
    match usable_text(out) {
        Some(text) => parse_cwd(text.as_str()),
        None => None,
    }
}

/// The number of lines that are not empty.
pub open spec fn filled_lines(list: Seq<Seq<char>>) -> nat
    decreases list.len(),
{
    if list.len() == 0 {
        0
    } else if list.last().len() > 0 {
        filled_lines(list.drop_last()) + 1
    } else {
        filled_lines(list.drop_last())
    }
}

/// The number of files in a listing of which one line is the header.
pub open spec fn files_in(list: Seq<Seq<char>>) -> Option<u32> {
    if filled_lines(list) == 0 {
        None
    } else {
        Some((filled_lines(list) - 1) as u32)
    }
}

/// The number of open files that a listing of `lsof` shows.
pub fn parse_num_fds(text: &str) -> (count: Option<u32>)
    ensures
        count == files_in(lines(text@)),
{
    let list = split_lines(text);
    let ghost all = lines(text@);
    let mut filled: usize = 0;
    let mut i: usize = 0;
    assert(all.take(0) =~= Seq::<Seq<char>>::empty());
    while i < list.len()
        invariant
            texts(list@) == all,
            i <= list.len(),
            filled <= i,
            filled == filled_lines(all.take(i as int)),
        decreases list.len() - i,
    {
        assert(all.take(i + 1).drop_last() =~= all.take(i as int));
        assert(all.take(i + 1).last() == list@[i as int]@);
        if !list[i].as_str().is_empty() {
            filled = filled + 1;
        }
        i = i + 1;
    }
    assert(all.take(i as int) =~= all);
    if filled == 0 {
        None
    } else {
        Some((filled - 1) as u32)
    }
}

/// The number of open files of a process, from the output of [`lsof_num_fds_command`];
/// `None` stands for a command that did not run.
pub fn lsof_num_fds(out: &Option<CommandOutput>) -> (count: Option<u32>)
    ensures
        count == match output_text(*out) {
            Some(text) => files_in(lines(text)),
            None => None,
        },
        is_usable(*out) && valid_utf8(out->0.stdout@) ==> count == files_in(
            lines(decode_utf8(out->0.stdout@)),
        ),
{
    match usable_text(out) {
        Some(text) => parse_num_fds(text.as_str()),
        None => None,
    }
}

/// What the outputs of the two commands say of a process.
pub open spec fn slow_fields_of(
    cwd_out: Option<CommandOutput>,
    fds_out: Option<CommandOutput>,
) -> SlowView {
    SlowView {
        cwd: match output_text(cwd_out) {
            Some(text) => directory_in(lines(text)),
            None => None,
        },
        num_fds: match output_text(fds_out) {
            Some(text) => files_in(lines(text)),
            None => None,
        },
    }
}

/// The slow fields of a process, from the outputs of [`lsof_cwd_command`] and
/// [`lsof_num_fds_command`].
pub fn collect_slow_for_pid(
    cwd_out: &Option<CommandOutput>,
    fds_out: &Option<CommandOutput>,
) -> (slow: SlowFields)
    ensures
        slow@ == slow_fields_of(*cwd_out, *fds_out),
        is_usable(*cwd_out) && valid_utf8(cwd_out->0.stdout@) ==> slow@.cwd == directory_in(
            lines(decode_utf8(cwd_out->0.stdout@)),
        ),
        is_usable(*fds_out) && valid_utf8(fds_out->0.stdout@) ==> slow@.num_fds == files_in(
            lines(decode_utf8(fds_out->0.stdout@)),
        ),
{
    let cwd = lsof_cwd(cwd_out);
    let num_fds = lsof_num_fds(fds_out);
    SlowFields { cwd, num_fds }
}

/// A process of which `lsof` says nothing, because it did not run or because it failed
/// and wrote nothing, has no slow fields.
pub proof fn law_failed_lsof_leaves_no_fields(
    cwd_out: Option<CommandOutput>,
    fds_out: Option<CommandOutput>,
)
    ensures
        !is_usable(cwd_out) ==> slow_fields_of(cwd_out, fds_out).cwd is None,
        !is_usable(fds_out) ==> slow_fields_of(cwd_out, fds_out).num_fds is None,
{
}

/// `sudo` stands in front of a command line where it is asked for, and changes nothing else.
pub proof fn law_sudo_only_stands_in_front(args: Seq<Seq<char>>)
    ensures
        command_line(args, false) == args,
        command_line(args, true).len() == args.len() + 1,
        command_line(args, true)[0] == "sudo"@,
        command_line(args, true).skip(1) == args,
{
    assert(command_line(args, true).skip(1) =~= args);
}

/// Both commands run `/usr/bin/lsof` on the process that is asked about, and on no other.
/// The one asks for the working directory in field output, the other for all open files.
pub proof fn law_commands_name_their_process(pid: u32)
    ensures
        cwd_args(pid).take(2) == seq!["/usr/bin/lsof"@, "-p"@],
        numeral_value(cwd_args(pid)[2]) == pid,
        cwd_args(pid).skip(3) == seq!["-a"@, "-d"@, "cwd"@, "-Fn"@],
        fds_args(pid).len() == 3,
        fds_args(pid) == cwd_args(pid).take(3),
        forall|i: int|
            0 <= i < cwd_args(pid)[2].len() ==> is_digit(#[trigger] cwd_args(pid)[2][i]),
{
    lemma_decimal_value(pid as nat);
    lemma_decimal_digits(pid as nat);
    assert(cwd_args(pid).take(2) =~= seq!["/usr/bin/lsof"@, "-p"@]);
    assert(cwd_args(pid).skip(3) =~= seq!["-a"@, "-d"@, "cwd"@, "-Fn"@]);
    assert(fds_args(pid) =~= cwd_args(pid).take(3));
}

/// The first line that is an `n` before a path other than the root gives the directory: that
/// path, whatever characters it consists of.
pub proof fn law_first_path_is_the_directory(list: Seq<Seq<char>>, k: int, path: Seq<char>)
    requires
        0 <= k < list.len(),
        list[k] == seq!['n'] + path,
        path.len() > 0,
        path != seq!['/'],
        forall|j: int|
            0 <= j < k ==> (#[trigger] list[j]).len() <= 1 || list[j][0] != 'n' || list[j] == seq![
                'n',
                '/',
            ],
    ensures
        directory_in(list) == Some(path),
    decreases list.len(),
{
    assert(list[k].skip(1) =~= path);
    if k > 0 {
        lemma_other_line(list[0]);
        assert forall|j: int| 0 <= j < k - 1 implies (#[trigger] list.skip(1)[j]).len() <= 1
            || list.skip(1)[j][0] != 'n' || list.skip(1)[j] == seq!['n', '/'] by {
            assert(list.skip(1)[j] == list[j + 1]);
        }
        law_first_path_is_the_directory(list.skip(1), k - 1, path);
    }
}

proof fn lemma_other_line(line: Seq<char>)
    requires
        line.len() <= 1 || line[0] != 'n' || line == seq!['n', '/'],
    ensures
        !names_directory(line),
{
    if line == seq!['n', '/'] {
        assert(line.skip(1) =~= seq!['/']);
    }
}

/// Without such a line there is no directory.
pub proof fn law_without_a_path_there_is_no_directory(list: Seq<Seq<char>>)
    requires
        forall|j: int|
            0 <= j < list.len() ==> (#[trigger] list[j]).len() <= 1 || list[j][0] != 'n' || list[j]
                == seq!['n', '/'],
    ensures
        directory_in(list) is None,
    decreases list.len(),
{
    if list.len() > 0 {
        lemma_other_line(list[0]);
        assert forall|j: int| 0 <= j < list.len() - 1 implies (#[trigger] list.skip(1)[j]).len()
            <= 1 || list.skip(1)[j][0] != 'n' || list.skip(1)[j] == seq!['n', '/'] by {
            assert(list.skip(1)[j] == list[j + 1]);
        }
        law_without_a_path_there_is_no_directory(list.skip(1));
    }
}

/// Every path other than the root that takes up one line is read back from a name field,
/// whatever stands in the lines after it. The lines before it may be of any other kind.
pub proof fn law_path_is_read_back(before: Seq<char>, path: Seq<char>, after: Seq<char>)
    requires
        before.len() == 0 || before.last() == '\n',
        forall|j: int|
            0 <= j < lines(before).len() ==> (#[trigger] lines(before)[j]).len() <= 1 || lines(
                before,
            )[j][0] != 'n' || lines(before)[j] == seq!['n', '/'],
        path.len() > 0,
        path != seq!['/'],
        !path.contains('\n'),
        path.last() != '\r',
    ensures
        directory_in(lines(before + seq!['n'] + path + seq!['\n'] + after)) == Some(path),
        directory_in(lines(seq!['n'] + path + seq!['\n'])) == Some(path),
{
    let field = seq!['n'] + path;
    assert forall|i: int| 0 <= i < field.len() implies field[i] != '\n' by {
        if i > 0 {
            assert(path.contains(path[i - 1]));
        }
    }
    assert(field.last() == path.last());
    let all = before + seq!['n'] + path + seq!['\n'] + after;
    assert(all =~= before + (field + seq!['\n'] + after));
    law_lines_of_one_text_behind_another(before, field + seq!['\n'] + after);
    law_line_ends_at_its_line_feed(field, after);
    let k = lines(before).len() as int;
    assert(lines(all)[k] == field);
    assert forall|j: int| 0 <= j < k implies (#[trigger] lines(all)[j]).len() <= 1 || lines(
        all,
    )[j][0] != 'n' || lines(all)[j] == seq!['n', '/'] by {
        assert(lines(all)[j] == lines(before)[j]);
    }
    law_first_path_is_the_directory(lines(all), k, path);
    let alone = seq!['n'] + path + seq!['\n'];
    assert(alone =~= field + seq!['\n'] + Seq::<char>::empty());
    law_line_ends_at_its_line_feed(field, Seq::empty());
    assert(lines(alone)[0] == field);
    law_first_path_is_the_directory(lines(alone), 0, path);
}

/// Of the lines of a listing that are not empty, all but the header stand for one file
/// each. A listing without such a line says nothing.
pub proof fn law_files_are_the_filled_lines_below_the_header(list: Seq<Seq<char>>)
    ensures
        (forall|i: int| 0 <= i < list.len() ==> (#[trigger] list[i]).len() == 0) ==> files_in(
            list,
        ) is None,
        ({
            let filled = list.filter(|line: Seq<char>| line.len() > 0).len();
            &&& filled == 0 <==> files_in(list) is None
            &&& 0 < filled <= u32::MAX + 1 ==> files_in(list) is Some && files_in(list)->0
                == filled - 1
        }),
{
    lemma_filled_lines_by_filter(list);
    if forall|i: int| 0 <= i < list.len() ==> (#[trigger] list[i]).len() == 0 {
        lemma_no_filled_lines(list);
    }
}

proof fn lemma_filled_lines_by_filter(list: Seq<Seq<char>>)
    ensures
        filled_lines(list) == list.filter(|line: Seq<char>| line.len() > 0).len(),
    decreases list.len(),
{
    reveal(Seq::filter);
    if list.len() > 0 {
        lemma_filled_lines_by_filter(list.drop_last());
    }
}

proof fn lemma_no_filled_lines(list: Seq<Seq<char>>)
    requires
        forall|i: int| 0 <= i < list.len() ==> (#[trigger] list[i]).len() == 0,
    ensures
        filled_lines(list) == 0,
    decreases list.len(),
{
    if list.len() > 0 {
        assert(list[list.len() - 1].len() == 0);
        lemma_no_filled_lines(list.drop_last());
    }
}

/// One more line is one more file, and one more empty line changes nothing.
pub proof fn law_one_more_line_is_one_more_file(list: Seq<Seq<char>>, line: Seq<char>)
    ensures
        line.len() == 0 ==> files_in(list.push(line)) == files_in(list),
        line.len() > 0 && files_in(list) is None ==> files_in(list.push(line)) == Some(0u32),
        line.len() > 0 && files_in(list) is Some && filled_lines(list) <= u32::MAX ==> files_in(
            list.push(line),
        ) is Some && files_in(list.push(line))->0 == files_in(list)->0 + 1,
{
    assert(list.push(line).drop_last() =~= list);
}

/// The slow fields come from what the commands wrote: of one that succeeded, and of one
/// that failed but wrote something, the whole output is read.
pub proof fn law_slow_fields_are_read_from_the_output(
    cwd_out: Option<CommandOutput>,
    fds_out: Option<CommandOutput>,
)
    ensures
        cwd_out is Some && (cwd_out->0.success || cwd_out->0.stdout@.len() > 0)
            ==> slow_fields_of(cwd_out, fds_out).cwd == directory_in(
            lines(utf8_lossy(cwd_out->0.stdout@)),
        ),
        fds_out is Some && (fds_out->0.success || fds_out->0.stdout@.len() > 0)
            ==> slow_fields_of(cwd_out, fds_out).num_fds == files_in(
            lines(utf8_lossy(fds_out->0.stdout@)),
        ),
        cwd_out is None || (!cwd_out->0.success && cwd_out->0.stdout@.len() == 0)
            ==> slow_fields_of(cwd_out, fds_out).cwd is None,
        fds_out is None || (!fds_out->0.success && fds_out->0.stdout@.len() == 0)
            ==> slow_fields_of(cwd_out, fds_out).num_fds is None,
{
}

} // verus!
