//! The shell and the terminal: named by the environment, and in the shell's
//! case asked for its version.
use crate::text::{chars_of, cut, field_spans, fields, line_spans, lines, trim_span, trimmed, whole, whole_span, Span};
use vstd::prelude::*;

verus! {

/// A piece of a path that names something: neither empty nor the single dot
/// that stands for the directory itself.
pub open spec fn names_entry(piece: Seq<char>) -> bool {
    piece.len() > 0 && piece != seq!['.']
}

/// The last of the pieces that names something.
pub open spec fn last_entry(pieces: Seq<Seq<char>>) -> Option<Seq<char>>
    decreases pieces.len(),
{
    if pieces.len() == 0 {
        None
    } else if names_entry(pieces.last()) {
        Some(pieces.last())
    } else {
        last_entry(pieces.drop_last())
    }
}

/// The file name of a path: the last of its pieces between slashes that
/// names something, unless that is the double dot of the parent directory.
pub open spec fn file_name(path: Seq<char>) -> Option<Seq<char>> {
    match last_entry(fields(path, '/')) {
        Some(piece) => if piece == seq!['.', '.'] {
            None
        } else {
            Some(piece)
        },
        None => None,
    }
}

/// The name of the shell: the file name of its path, or `[shell]` where the
/// environment names no shell or the path has no file name.
pub open spec fn shell_name_of(shell: Option<&str>) -> Seq<char> {
    match shell {
        Some(path) => match file_name(path@) {
            Some(name) => name,
            None => "[shell]"@,
        },
        None => "[shell]"@,
    }
}

/// The name of the shell, from the path that the environment gives for it.
pub fn get_shell_name(shell: Option<&str>) -> (r: String)
    ensures
        r@ == shell_name_of(shell),
{
    match shell {
        Some(path) => {
            let v = chars_of(path);
            let parts = field_spans(&v, whole_span(&v), '/');
            let ghost pieces = fields(v@, '/');
            let mut i: usize = parts.len();
            assert(pieces.take(i as int) =~= pieces);
            while i > 0
                invariant
                    shell == Some(path),
                    v@ == path@,
                    pieces == fields(v@, '/'),
                    crate::text::texts(parts@, v@) == pieces,
                    crate::text::all_within(parts@, whole(v@)),
                    i <= parts.len(),
                    last_entry(pieces) == last_entry(pieces.take(i as int)),
                decreases i,
            {
                let part = parts[i - 1];
                let ghost piece = part.of(v@);
                assert(part.within(whole(v@)));
                assert(pieces.take(i as int).last() == piece);
                assert(pieces.take(i as int).drop_last() =~= pieces.take(i - 1));
                let len = part.end - part.start;
                let dot = len == 1 && v[part.start] == '.';
                assert(dot == (piece == seq!['.'])) by {
                    if dot {
                        assert(piece =~= seq!['.']);
                    } else if len == 1 {
                        assert(piece[0] != seq!['.'][0]);
                    } else {
                        assert(piece.len() != seq!['.'].len());
                    }
                }
                if len > 0 && !dot {
                    let parent = len == 2 && v[part.start] == '.' && v[part.start + 1] == '.';
                    assert(parent == (piece == seq!['.', '.'])) by {
                        if parent {
                            assert(piece =~= seq!['.', '.']);
                        } else if len == 2 {
                            assert(piece[0] != seq!['.', '.'][0] || piece[1] != seq!['.', '.'][1]);
                        } else {
                            assert(piece.len() != seq!['.', '.'].len());
                        }
                    }
                    if parent {
                        return "[shell]".to_owned();
                    }
                    return cut(path, part);
                }
                i -= 1;
            }
            assert(pieces.take(0) =~= Seq::<Seq<char>>::empty());
            "[shell]".to_owned()
        },
        None => "[shell]".to_owned(),
    }
}

/// The first line of what the shell printed, trimmed, or `[version]`.
pub open spec fn shell_version_of(output: Option<&str>) -> Seq<char> {
    match output {
        Some(text) => if lines(text@).len() > 0 {
            trimmed(lines(text@)[0])
        } else {
            "[version]"@
        },
        None => "[version]"@,
    }
}

/// The version line of the shell: the first line of what it printed when
/// asked for its version, trimmed. Where the shell could not be run, or
/// printed nothing that can be read, the answer is `[version]`.
pub fn get_shell_version(output: Option<&str>) -> (r: String)
    ensures
        r@ == shell_version_of(output),
        output is None ==> r@ == "[version]"@,
{
    match output {
        Some(text) => {
            let v = chars_of(text);
            let found = line_spans(&v);
            if found.len() > 0 {
                assert(found@[0].within(whole(v@)));
                let span = trim_span(&v, found[0]);
                cut(text, span)
            } else {
                "[version]".to_owned()
            }
        },
        None => "[version]".to_owned(),
    }
}

/// The terminal's name, or `Unknown Terminal`.
pub open spec fn terminal_name_of(term: Option<&str>) -> Seq<char> {
    match term {
        Some(name) => name@,
        None => "Unknown Terminal"@,
    }
}

/// The name of the terminal, as the environment gives it. Where it gives
/// none the answer is `Unknown Terminal`.
pub fn get_terminal_name(term: Option<&str>) -> (r: String)
    ensures
        r@ == terminal_name_of(term),
{
    match term {
        Some(name) => name.to_owned(),
        None => "Unknown Terminal".to_owned(),
    }
}

} // verus!
