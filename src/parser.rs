use vstd::prelude::*;

verus! {

/// Whether `c` carries the Unicode `White_Space` property.
pub open spec fn is_ws(c: char) -> bool {
    let u = c as u32;
    (0x09 <= u && u <= 0x0D) || u == 0x20 || u == 0x85 || u == 0xA0 || u == 0x1680 || (0x2000
        <= u && u <= 0x200A) || u == 0x2028 || u == 0x2029 || u == 0x202F || u == 0x205F || u
        == 0x3000
}

/// The maximal runs of non-whitespace characters of `s`, left to right,
/// where `cur` is a run already begun before `s`.
pub open spec fn words_from(s: Seq<char>, cur: Seq<char>) -> Seq<Seq<char>>
    decreases s.len(),
{
    if s.len() == 0 {
        if cur.len() > 0 {
            seq![cur]
        } else {
            seq![]
        }
    } else if is_ws(s[0]) {
        let rest = words_from(s.drop_first(), seq![]);
        if cur.len() > 0 {
            seq![cur] + rest
        } else {
            rest
        }
    } else {
        words_from(s.drop_first(), cur.push(s[0]))
    }
}

/// The whitespace-separated words of `s`.
pub open spec fn words(s: Seq<char>) -> Seq<Seq<char>> {
    words_from(s, seq![])
}

pub open spec fn trim_start(s: Seq<char>) -> Seq<char>
    decreases s.len(),
{
    if s.len() > 0 && is_ws(s[0]) {
        trim_start(s.drop_first())
    } else {
        s
    }
}

pub open spec fn trim_end(s: Seq<char>) -> Seq<char>
    decreases s.len(),
{
    if s.len() > 0 && is_ws(s.last()) {
        trim_end(s.drop_last())
    } else {
        s
    }
}

/// `s` without its leading and trailing whitespace.
pub open spec fn trim(s: Seq<char>) -> Seq<char> {
    trim_end(trim_start(s))
}

/// The words `ws` joined with single spaces.
pub open spec fn join_words(ws: Seq<Seq<char>>) -> Seq<char>
    decreases ws.len(),
{
    if ws.len() == 0 {
        seq![]
    } else if ws.len() == 1 {
        ws[0]
    } else {
        join_words(ws.drop_last()) + seq![' '] + ws.last()
    }
}

/// What a command means: its verb and its arguments as character sequences.
pub enum CommandView {
    SetKey(Seq<char>, Seq<char>),
    Get(Seq<char>),
    Delete(Seq<char>),
}

/// The command that a line of text denotes, if any.
pub open spec fn parse_line(s: Seq<char>) -> Option<CommandView> {
    let w = words(s);
    if w.len() >= 3 && w[0] == "SET"@ {
        Some(CommandView::SetKey(w[1], join_words(w.subrange(2, w.len() as int))))
    } else if w.len() == 2 && w[0] == "GET"@ {
        Some(CommandView::Get(w[1]))
    } else if w.len() == 2 && w[0] == "DELETE"@ {
        Some(CommandView::Delete(w[1]))
    } else {
        None
    }
}

/// The reason given for a line that denotes no command.
pub open spec fn parse_error_message(s: Seq<char>) -> Seq<char> {
    if words(s).len() == 0 {
        "Empty line"@
    } else {
        "Invalid command: "@ + trim(s)
    }
}

#[derive(Debug, PartialEq)]
pub enum CommandType {
    SetKey(String, String),
    Get(String),
    Delete(String),
}

impl View for CommandType {
    type V = CommandView;

    open spec fn view(&self) -> CommandView {
        match self {
            CommandType::SetKey(k, v) => CommandView::SetKey(k@, v@),
            CommandType::Get(k) => CommandView::Get(k@),
            CommandType::Delete(k) => CommandView::Delete(k@),
        }
    }
}

#[derive(Debug)]
pub struct Command {
    pub command_type: CommandType,
}

impl View for Command {
    type V = CommandView;

    open spec fn view(&self) -> CommandView {
        self.command_type@
    }
}

/// Whether `c` is a whitespace character (Unicode `White_Space`).
pub fn is_whitespace(c: char) -> (r: bool)
    ensures
        r == is_ws(c),
{
    let u = c as u32;
    (0x09 <= u && u <= 0x0D) || u == 0x20 || u == 0x85 || u == 0xA0 || u == 0x1680 || (0x2000
        <= u && u <= 0x200A) || u == 0x2028 || u == 0x2029 || u == 0x202F || u == 0x205F || u
        == 0x3000
}

/// Splits `line` into its whitespace-separated words.
pub fn split_words(line: &str) -> (r: Vec<String>)
    ensures
        r@.map_values(|w: String| w@) == words(line@),
{
    let n = line.unicode_len();
    let mut out: Vec<String> = Vec::new();
    let mut start: usize = 0;
    let mut i: usize = 0;
    assert(line@.skip(0) =~= line@);
    assert(line@.subrange(0, 0) =~= Seq::<char>::empty());
    assert(out@.map_values(|w: String| w@) =~= Seq::<Seq<char>>::empty());
    while i < n
        invariant
            n == line@.len(),
            start <= i <= n,
            forall|k: int| start <= k < i ==> !is_ws(#[trigger] line@[k]),
            out@.map_values(|w: String| w@) + words_from(
                line@.skip(i as int),
                line@.subrange(start as int, i as int),
            ) == words(line@),
        decreases n - i,
    {
        let c = line.get_char(i);
        let ghost s = line@.skip(i as int);
        let ghost cur = line@.subrange(start as int, i as int);
        assert(s.drop_first() =~= line@.skip(i + 1));
        if is_whitespace(c) {
            if start < i {
                let ghost before = out@.map_values(|w: String| w@);
                let w = String::from_str(line.substring_char(start, i));
                out.push(w);
                assert(out@.map_values(|w: String| w@) =~= before.push(cur));
                assert(before + (seq![cur] + words_from(s.drop_first(), seq![])) =~= before.push(
                    cur,
                ) + words_from(s.drop_first(), seq![]));
            }
            assert(line@.subrange(i + 1, i + 1) =~= Seq::<char>::empty());
            start = i + 1;
        } else {
            assert(cur.push(c) =~= line@.subrange(start as int, i + 1));
        }
        i = i + 1;
    }
    if start < n {
        let ghost before = out@.map_values(|w: String| w@);
        let w = String::from_str(line.substring_char(start, n));
        out.push(w);
        assert(out@.map_values(|w: String| w@) =~= before.push(line@.subrange(start as int, n as int)));
    }
    assert(line@.skip(n as int) =~= Seq::<char>::empty());
    out
}

/// `line` without its leading and trailing whitespace.
pub fn trim_line(line: &str) -> (r: String)
    ensures
        r@ == trim(line@),
{
    let n = line.unicode_len();
    let mut i: usize = 0;
    assert(line@.skip(0) =~= line@);
    while i < n && is_whitespace(line.get_char(i))
        invariant
            n == line@.len(),
            i <= n,
            trim_start(line@.skip(i as int)) == trim_start(line@),
        decreases n - i,
    {
        assert(line@.skip(i as int).drop_first() =~= line@.skip(i + 1));
        i = i + 1;
    }
    let mut j: usize = n;
    assert(line@.subrange(i as int, n as int) =~= line@.skip(i as int));
    while j > i && is_whitespace(line.get_char(j - 1))
        invariant
            n == line@.len(),
            i <= j <= n,
            trim_end(line@.subrange(i as int, j as int)) == trim(line@),
        decreases j,
    {
        assert(line@.subrange(i as int, j as int).drop_last() =~= line@.subrange(
            i as int,
            j - 1,
        ));
        j = j - 1;
    }
    String::from_str(line.substring_char(i, j))
}

/// The words of `ws` from index `from` on, joined with single spaces.
pub fn join_with_spaces(ws: &Vec<String>, from: usize) -> (r: String)
    requires
        from < ws.len(),
    ensures
        r@ == join_words(ws@.map_values(|w: String| w@).subrange(from as int, ws.len() as int)),
{
    let ghost views = ws@.map_values(|w: String| w@);
    let mut out = String::new();
    out.append(ws[from].as_str());
    let mut k: usize = from + 1;
    proof {
        reveal_strlit(" ");
        assert(views.subrange(from as int, from + 1) =~= seq![ws@[from as int]@]);
    }
    while k < ws.len()
        invariant
            from < k <= ws.len(),
            views == ws@.map_values(|w: String| w@),
            out@ == join_words(views.subrange(from as int, k as int)),
            " "@ == seq![' '],
        decreases ws.len() - k,
    {
        out.append(" ");
        out.append(ws[k].as_str());
        assert(views.subrange(from as int, k + 1).drop_last() =~= views.subrange(
            from as int,
            k as int,
        ));
        k = k + 1;
    }
    out
}

impl Command {
    pub fn new(command_type: CommandType) -> (r: Self)
        ensures
            r.command_type == command_type,
    {
        Self { command_type }
    }

    /// Parses one line of input: `SET <key> <value...>`, `GET <key>` or
    /// `DELETE <key>`, with words separated by any whitespace. The value of a
    /// `SET` is its remaining words joined with single spaces.
    pub fn parse(line: &str) -> (r: Result<Command, String>)
        ensures
            match r {
                Ok(c) => parse_line(line@) == Some(c@),
                Err(e) => parse_line(line@) is None && e@ == parse_error_message(line@),
            },
    {
        let parts = split_words(line);
        let ghost w = words(line@);
        assert(parts@.map_values(|p: String| p@).len() == parts@.len());
        if parts.len() == 0 {
            return Err(String::from_str("Empty line"));
        }
        let set_verb = String::from_str("SET");
        let get_verb = String::from_str("GET");
        let delete_verb = String::from_str("DELETE");
        assert(parts@[0]@ == w[0]);
        if parts.len() >= 3 && parts[0] == set_verb {
            let key = parts[1].clone();
            let value = join_with_spaces(&parts, 2);
            assert(parts@[1]@ == w[1]);
            Ok(Command::new(CommandType::SetKey(key, value)))
        } else if parts.len() == 2 && parts[0] == get_verb {
            assert(parts@[1]@ == w[1]);
            Ok(Command::new(CommandType::Get(parts[1].clone())))
        } else if parts.len() == 2 && parts[0] == delete_verb {
            assert(parts@[1]@ == w[1]);
            Ok(Command::new(CommandType::Delete(parts[1].clone())))
        } else {
            let mut msg = String::from_str("Invalid command: ");
            let trimmed = trim_line(line);
            msg.append(trimmed.as_str());
            Err(msg)
        }
    }
}

impl std::str::FromStr for Command {
    type Err = String;

    fn from_str(line: &str) -> Result<Command, String> {
        Command::parse(line)
    }
}

} // verus!
