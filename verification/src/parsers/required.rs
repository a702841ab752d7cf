//! The text of the required arguments.
//!
//! Each line requires one argument, with a leading `-` for the negative sign:
//! either by its number from one, or as `s` and its name.

use crate::parsers::error::{fault, ParseError, ParseErrorKind};
use crate::parsers::framework::{find_name, name_index, names_below, names_model, Names};
use crate::text::{behind_sign, has_minus, is_comment, parse_unsigned, range_text, ranges_text};
use crate::text::{read_unsigned, split, split_line, MINUS};
use vstd::prelude::*;

verus! {

/// The byte that announces a name.
pub const NAME_MARK: u8 = 115;

/// The argument that a line requires, and its sign.
pub open spec fn required_of(line: Seq<u8>, number_of_arguments: usize, names: Names) -> Result<
    (usize, bool),
    ParseErrorKind,
> {
    let tokens = split(line);
    if tokens.len() == 1 {
        match parse_unsigned(behind_sign(tokens[0], MINUS)) {
            None => Err(ParseErrorKind::InvalidRequiredArgument),
            Some(number) => if number == 0 || number > number_of_arguments {
                Err(ParseErrorKind::InvalidRequiredArgument)
            } else {
                Ok(((number - 1) as usize, !has_minus(tokens[0])))
            },
        }
    } else if tokens[0] != seq![NAME_MARK] {
        Err(ParseErrorKind::MalformedRequired)
    } else {
        let at = name_index(names, behind_sign(tokens[1], MINUS), 0);
        if at >= names.len() {
            Err(ParseErrorKind::UnknownArgumentName)
        } else {
            match names[at].1 {
                None => Err(ParseErrorKind::AmbiguousArgumentName),
                Some(argument) => Ok((argument, !has_minus(tokens[1]))),
            }
        }
    }
}

/// The required arguments, given those read so far and the lines from `pos`
/// on.
pub open spec fn required_from(
    lines: Seq<Seq<u8>>,
    pos: int,
    number_of_arguments: usize,
    names: Names,
    required: Seq<(usize, bool)>,
) -> Result<Seq<(usize, bool)>, ParseError>
    decreases lines.len() - pos,
{
    if pos >= lines.len() {
        Ok(required)
    } else if is_comment(lines[pos]) {
        required_from(lines, pos + 1, number_of_arguments, names, required)
    } else {
        match required_of(lines[pos], number_of_arguments, names) {
            Err(kind) => Err(fault(kind, pos)),
            Ok(literal) => required_from(
                lines,
                pos + 1,
                number_of_arguments,
                names,
                required.push(literal),
            ),
        }
    }
}

/// The arguments that a text requires; none without a text.
pub open spec fn requirements_of(
    lines: Option<Seq<Seq<u8>>>,
    number_of_arguments: usize,
    names: Names,
) -> Result<Seq<(usize, bool)>, ParseError> {
    match lines {
        None => Ok(Seq::empty()),
        Some(lines) => required_from(lines, 0, number_of_arguments, names, Seq::empty()),
    }
}

/// Reads one line of the required arguments.
pub fn read_required(
    line: &Vec<u8>,
    number_of_arguments: usize,
    names: &Vec<(Vec<u8>, Option<usize>)>,
) -> (result: Result<(usize, bool), ParseErrorKind>)
    requires
        names_below(names_model(names@), number_of_arguments),
    ensures
        result == required_of(line@, number_of_arguments, names_model(names@)),
        result matches Ok((argument, _)) ==> argument < number_of_arguments,
{
    let tokens = split_line(line);
    let ghost texts = split(line@);
    proof {
        assert forall|i: int| 0 <= i < tokens@.len() implies #[trigger] texts[i] == range_text(
            line@,
            tokens@[i],
        ) by {
            assert(ranges_text(line@, tokens@)[i] == range_text(line@, tokens@[i]));
        }
    }
    if tokens.len() == 1 {
        let (start, end) = tokens[0];
        let negative = start < end && line[start] == MINUS;
        let from: usize = if negative {
            start + 1
        } else {
            start
        };
        proof {
            if negative {
                assert(texts[0].subrange(1, texts[0].len() as int) =~= line@.subrange(
                    from as int,
                    end as int,
                ));
            }
        }
        match read_unsigned(line, from, end) {
            None => Err(ParseErrorKind::InvalidRequiredArgument),
            Some(number) => if number == 0 || number > number_of_arguments {
                Err(ParseErrorKind::InvalidRequiredArgument)
            } else {
                Ok((number - 1, !negative))
            },
        }
    } else {
        let (mark_start, mark_end) = tokens[0];
        if mark_end - mark_start != 1 || line[mark_start] != NAME_MARK {
            proof {
                assert(seq![NAME_MARK].len() == 1 && seq![NAME_MARK][0] == NAME_MARK);
                assert(texts[0].len() != 1 || texts[0][0] != NAME_MARK);
            }
            return Err(ParseErrorKind::MalformedRequired);
        }
        assert(texts[0] =~= seq![NAME_MARK]);
        let (start, end) = tokens[1];
        let negative = start < end && line[start] == MINUS;
        let from: usize = if negative {
            start + 1
        } else {
            start
        };
        proof {
            if negative {
                assert(texts[1].subrange(1, texts[1].len() as int) =~= line@.subrange(
                    from as int,
                    end as int,
                ));
            }
        }
        let at = find_name(names, line, from, end);
        if at >= names.len() {
            Err(ParseErrorKind::UnknownArgumentName)
        } else {
            assert(names_model(names@)[at as int].1 == names@[at as int].1);
            match names[at].1 {
                None => Err(ParseErrorKind::AmbiguousArgumentName),
                Some(argument) => Ok((argument, !negative)),
            }
        }
    }
}

} // verus!
