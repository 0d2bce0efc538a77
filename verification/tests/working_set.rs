//! The pass over the fields, held against a plain walk with a working set of
//! the required tags, on many short messages.
use fix_message::parse_judged;
use fix_message::parser::validate_and_parse;
use fix_message::wire::split_message;
use fix_message::ExtraRequiredFieldFound;
use fix_message::FIXMessage;
use fix_message::FIXMessageError;
use fix_message::FIXMessageField;
use fix_message::InvalidFieldStructure;
use fix_message::InvalidFirstField;
use fix_message::InvalidSecondField;
use fix_message::InvalidThirdField;
use fix_message::NotAllRequiredFieldsFound;

/// A small generator of numbers: the same sequence on every run.
struct Numbers(u64);

impl Numbers {
    fn next(&mut self, below: usize) -> usize {
        self.0 = self.0.wrapping_mul(6364136223846793005).wrapping_add(1442695040888963407);
        ((self.0 >> 33) as usize) % below
    }
}

const HEADER: [&str; 7] = ["8=F", "9=1", "35=0", "49=a", "56=b", "34=2", "52=t"];

const OTHERS: [&str; 12] =
    ["10=000", "58=x", "58=a=b", "1=\u{e9}", "", "=", "8", "35=", "=0", "10", "10=", "\u{20ac}=1"];

/// Fields that mostly follow the rules: the header, with now and then a
/// field left out, swapped, repeated or put between.
fn fields(numbers: &mut Numbers) -> Vec<&'static str> {
    let mut list: Vec<&'static str> = HEADER.to_vec();
    if numbers.next(3) == 0 {
        let a = numbers.next(list.len());
        let b = numbers.next(list.len());
        list.swap(a, b);
    }
    for _ in 0..numbers.next(3) {
        let at = numbers.next(list.len() + 1);
        let field = if numbers.next(2) == 0 {
            HEADER[numbers.next(HEADER.len())]
        } else {
            OTHERS[numbers.next(OTHERS.len())]
        };
        list.insert(at, field);
    }
    if numbers.next(3) == 0 {
        let at = numbers.next(list.len());
        list.remove(at);
    }
    if numbers.next(4) != 0 {
        list.push("10=000");
    }
    if numbers.next(8) == 0 {
        list.truncate(numbers.next(4));
    }
    list
}

/// The walk: each field is split at its first `=`, held against its place,
/// taken out of the working set, and kept.
fn walk(fields: &[&str]) -> Result<Vec<FIXMessageField>, FIXMessageError> {
    let mut pending = vec!["8", "9", "35", "49", "56", "34", "52"];
    let mut kept = Vec::new();
    for (index, field) in fields.iter().enumerate() {
        let parts: Vec<&str> = field.splitn(2, '=').collect();
        if parts.len() < 2 || parts[0].is_empty() || parts[1].is_empty() {
            return Err(InvalidFieldStructure);
        }
        let (tag, value) = (parts[0], parts[1]);
        match index {
            0 if tag != "8" => return Err(InvalidFirstField(tag.to_string())),
            1 if tag != "9" => return Err(InvalidSecondField(tag.to_string())),
            2 if tag != "35" => return Err(InvalidThirdField(tag.to_string())),
            _ => {}
        }
        if ["8", "9", "35", "49", "56", "34", "52"].contains(&tag) {
            let before = pending.len();
            pending.retain(|required| *required != tag);
            if pending.len() + 1 != before {
                return Err(ExtraRequiredFieldFound);
            }
        }
        if tag == "10" && !pending.is_empty() {
            return Err(NotAllRequiredFieldsFound);
        }
        kept.push(FIXMessageField { tag: tag.to_string(), value: value.to_string() });
    }
    Ok(kept)
}

#[test]
fn the_pass_gives_what_the_walk_gives() {
    let mut numbers = Numbers(5);
    let mut seen = [0; 7];
    for _ in 0..40_000 {
        let list = fields(&mut numbers);
        let result = validate_and_parse(list.clone());
        assert_eq!(result, walk(&list), "{:?}", list);
        match result {
            Ok(_) => seen[0] += 1,
            Err(InvalidFieldStructure) => seen[1] += 1,
            Err(InvalidFirstField(_)) => seen[2] += 1,
            Err(InvalidSecondField(_)) => seen[3] += 1,
            Err(InvalidThirdField(_)) => seen[4] += 1,
            Err(ExtraRequiredFieldFound) => seen[5] += 1,
            Err(_) => seen[6] += 1,
        }
    }
    for count in seen {
        assert!(count > 100, "{:?}", seen);
    }
}

#[test]
fn a_parse_splits_and_then_walks() {
    let mut numbers = Numbers(6);
    for _ in 0..20_000 {
        let list = fields(&mut numbers);
        let text = list.join("\x01");
        let split: Vec<&str> = text.split('\x01').collect();
        assert_eq!(split_message(&text), split, "{:?}", text);
        let expected = walk(&split).map(|data| FIXMessage {
            version: data[0].value.clone(),
            data,
        });
        assert_eq!(parse_judged(&text, Ok(true)), expected, "{:?}", text);
    }
}
