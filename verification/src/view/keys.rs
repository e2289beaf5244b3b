//! Key bindings.
//!
//! The table of bindings and the help screen come from one definition, so
//! that one cannot be changed without the other.

use vstd::prelude::*;

verus! {

/// A key, as far as the bindings tell keys apart.
#[derive(Debug, Clone, Copy, PartialEq, Eq, Structural)]
pub enum KeyCode {
    Char(char),
    Left,
    Right,
    Up,
    Down,
    Enter,
    Esc,
    /// Any key that no binding names.
    Other,
}

/// A key press: the key and whether Control was held.
#[derive(Debug, Clone, Copy, PartialEq, Eq, Structural)]
pub struct Key {
    pub code: KeyCode,
    pub control: bool,
}

impl Key {
    /// A key pressed without Control.
    pub fn plain(code: KeyCode) -> (k: Key)
        ensures
            k == (Key { code, control: false }),
    {
        Key { code, control: false }
    }
}

/// What a binding does.
#[derive(Debug, Clone, Copy, PartialEq, Eq, Structural)]
pub enum Command {
    Next,
    Prev,
    First,
    Last,
    ToggleHelp,
    CloseHelp,
    Quit,
}

/// One binding: the keys, how help shows them, and the command.
pub struct Binding {
    /// The keys that run the command.
    pub codes: Vec<KeyCode>,
    /// How help writes the keys.
    pub label: &'static str,
    /// How help describes the command.
    pub description: &'static str,
    /// The command.
    pub command: Command,
}

/// The keys and commands of the bindings, in the order help lists them.
pub open spec fn table() -> Seq<(Seq<KeyCode>, Command)> {
    seq![
        (seq![KeyCode::Right, KeyCode::Char('l')], Command::Next),
        (seq![KeyCode::Left, KeyCode::Char('h')], Command::Prev),
        (seq![KeyCode::Char('g')], Command::First),
        (seq![KeyCode::Char('G')], Command::Last),
        (seq![KeyCode::Char('?')], Command::ToggleHelp),
        (seq![KeyCode::Esc], Command::CloseHelp),
        (seq![KeyCode::Char('q')], Command::Quit),
    ]
}

/// How help shows each binding, in the order of `table`: the keys as
/// written, then what they do.
pub open spec fn help_entries() -> Seq<(Seq<char>, Seq<char>)> {
    seq![
        (seq!['→', ' ', '/', ' ', 'l'], seq!['次', 'の', '手']),
        (seq!['←', ' ', '/', ' ', 'h'], seq!['前', 'の', '手']),
        (seq!['g'], seq!['開', '始', '局', '面', 'へ']),
        (seq!['G'], seq!['終', '局', 'へ']),
        (seq!['?'], seq!['ヘ', 'ル', 'プ', 'の', '開', '閉']),
        (seq!['E', 's', 'c'], seq!['ヘ', 'ル', 'プ', 'を', '閉', 'じ', 'る']),
        (seq!['q'], seq!['終', '了']),
    ]
}

/// The command of the first binding in `t` from `k` on that lists `code`.
pub open spec fn lookup(t: Seq<(Seq<KeyCode>, Command)>, k: int, code: KeyCode) -> Option<Command>
    decreases t.len() - k,
{
    if k < 0 || k >= t.len() {
        None
    } else if t[k].0.contains(code) {
        Some(t[k].1)
    } else {
        lookup(t, k + 1, code)
    }
}

/// The command a key press asks for. With Control held only Ctrl+C counts,
/// as Quit: in raw mode Ctrl+C no longer interrupts the program, and without
/// it `q` would be the only way out of a broken screen.
pub open spec fn command_of(key: Key) -> Option<Command> {
    if key.control {
        if key.code == KeyCode::Char('c') {
            Some(Command::Quit)
        } else {
            None
        }
    } else {
        lookup(table(), 0, key.code)
    }
}

fn binding(codes: Vec<KeyCode>, label: &'static str, description: &'static str, command: Command) -> (b: Binding)
    ensures
        b.codes@ == codes@,
        b.label@ == label@,
        b.description@ == description@,
        b.command == command,
{
    Binding { codes, label, description, command }
}

/// The bindings, from which both the key handling and help are made, so
/// that neither can change without the other.
///
/// Up and down are left free for moving between bad moves.
pub fn bindings() -> (bs: Vec<Binding>)
    ensures
        bs@.len() == table().len(),
        forall|k: int|
            0 <= k < bs@.len() ==> (#[trigger] bs@[k]).codes@ == table()[k].0 && bs@[k].command
                == table()[k].1,
        forall|k: int|
            0 <= k < bs@.len() ==> (#[trigger] bs@[k]).label@ == help_entries()[k].0
                && bs@[k].description@ == help_entries()[k].1,
{
    proof {
        reveal_strlit("→ / l");
        reveal_strlit("次の手");
        reveal_strlit("← / h");
        reveal_strlit("前の手");
        reveal_strlit("g");
        reveal_strlit("開始局面へ");
        reveal_strlit("G");
        reveal_strlit("終局へ");
        reveal_strlit("?");
        reveal_strlit("ヘルプの開閉");
        reveal_strlit("Esc");
        reveal_strlit("ヘルプを閉じる");
        reveal_strlit("q");
        reveal_strlit("終了");
    }
    let mut bs: Vec<Binding> = Vec::new();
    bs.push(binding(vec![KeyCode::Right, KeyCode::Char('l')], "→ / l", "次の手", Command::Next));
    bs.push(binding(vec![KeyCode::Left, KeyCode::Char('h')], "← / h", "前の手", Command::Prev));
    bs.push(binding(vec![KeyCode::Char('g')], "g", "開始局面へ", Command::First));
    bs.push(binding(vec![KeyCode::Char('G')], "G", "終局へ", Command::Last));
    bs.push(binding(vec![KeyCode::Char('?')], "?", "ヘルプの開閉", Command::ToggleHelp));
    bs.push(binding(vec![KeyCode::Esc], "Esc", "ヘルプを閉じる", Command::CloseHelp));
    bs.push(binding(vec![KeyCode::Char('q')], "q", "終了", Command::Quit));
    assert(bs@[0].codes@ =~= table()[0].0);
    assert(bs@[1].codes@ =~= table()[1].0);
    assert(bs@[2].codes@ =~= table()[2].0);
    assert(bs@[3].codes@ =~= table()[3].0);
    assert(bs@[4].codes@ =~= table()[4].0);
    assert(bs@[5].codes@ =~= table()[5].0);
    assert(bs@[6].codes@ =~= table()[6].0);
    assert(bs@[0].label@ =~= help_entries()[0].0 && bs@[0].description@ =~= help_entries()[0].1);
    assert(bs@[1].label@ =~= help_entries()[1].0 && bs@[1].description@ =~= help_entries()[1].1);
    assert(bs@[2].label@ =~= help_entries()[2].0 && bs@[2].description@ =~= help_entries()[2].1);
    assert(bs@[3].label@ =~= help_entries()[3].0 && bs@[3].description@ =~= help_entries()[3].1);
    assert(bs@[4].label@ =~= help_entries()[4].0 && bs@[4].description@ =~= help_entries()[4].1);
    assert(bs@[5].label@ =~= help_entries()[5].0 && bs@[5].description@ =~= help_entries()[5].1);
    assert(bs@[6].label@ =~= help_entries()[6].0 && bs@[6].description@ =~= help_entries()[6].1);
    bs
}

fn lists(codes: &Vec<KeyCode>, code: KeyCode) -> (b: bool)
    ensures
        b == codes@.contains(code),
{
    let mut i: usize = 0;
    while i < codes.len()
        invariant
            i <= codes@.len(),
            forall|j: int| 0 <= j < i ==> codes@[j] != code,
        decreases codes@.len() - i,
    {
        if codes[i] == code {
            return true;
        }
        i = i + 1;
    }
    false
}

/// The command a key press asks for, if any.
pub fn command_for(key: Key) -> (c: Option<Command>)
    ensures
        c == command_of(key),
{
    if key.control {
        return if key.code == KeyCode::Char('c') {
            Some(Command::Quit)
        } else {
            None
        };
    }
    assert(command_of(key) == lookup(table(), 0, key.code));
    let bs = bindings();
    let mut k: usize = 0;
    while k < bs.len()
        invariant
            k <= bs@.len(),
            bs@.len() == table().len(),
            forall|j: int|
                0 <= j < bs@.len() ==> (#[trigger] bs@[j]).codes@ == table()[j].0 && bs@[j].command
                    == table()[j].1,
            !key.control,
            command_of(key) == lookup(table(), k as int, key.code),
        decreases bs@.len() - k,
    {
        if lists(&bs[k].codes, key.code) {
            assert(bs@[k as int].codes@ == table()[k as int].0);
            assert(table()[k as int].0.contains(key.code));
            assert(lookup(table(), k as int, key.code) == Some(table()[k as int].1));
            let c = bs[k].command;
            assert(c == table()[k as int].1);
            return Some(c);
        }
        k = k + 1;
    }
    None
}

/// Every key that help lists for a binding runs that binding's command:
/// help and key handling cannot disagree.
pub proof fn law_help_matches_keys(k: int, j: int)
    requires
        0 <= k < table().len(),
        0 <= j < table()[k].0.len(),
    ensures
        command_of(Key { code: table()[k].0[j], control: false }) == Some(table()[k].1),
{
    let t = table();
    reveal_with_fuel(lookup, 8);
    assert(t[0].0 =~= seq![KeyCode::Right, KeyCode::Char('l')]);
    assert(t[1].0 =~= seq![KeyCode::Left, KeyCode::Char('h')]);
    assert(t[2].0 =~= seq![KeyCode::Char('g')]);
    assert(t[3].0 =~= seq![KeyCode::Char('G')]);
    assert(t[4].0 =~= seq![KeyCode::Char('?')]);
    assert(t[5].0 =~= seq![KeyCode::Esc]);
    assert(t[6].0 =~= seq![KeyCode::Char('q')]);
    let code = t[k].0[j];
    assert forall|m: int| 0 <= m < k implies !t[m].0.contains(code) by {
        if t[m].0.contains(code) {
            let x = choose|x: int| 0 <= x < t[m].0.len() && t[m].0[x] == code;
        }
    }
    assert(t[k].0.contains(code));
}

/// The key that help writes as `name`: an arrow, `Esc`, `Enter`, or a
/// single character for that character's key.
pub open spec fn key_named(name: Seq<char>) -> KeyCode {
    if name == seq!['→'] {
        KeyCode::Right
    } else if name == seq!['←'] {
        KeyCode::Left
    } else if name == seq!['↑'] {
        KeyCode::Up
    } else if name == seq!['↓'] {
        KeyCode::Down
    } else if name == seq!['E', 's', 'c'] {
        KeyCode::Esc
    } else if name == seq!['E', 'n', 't', 'e', 'r'] {
        KeyCode::Enter
    } else if name.len() == 1 {
        KeyCode::Char(name[0])
    } else {
        KeyCode::Other
    }
}

/// The keys a help label names, from index `j` of `label` on looking for the
/// ` / ` that separates two names.
pub open spec fn keys_named_from(label: Seq<char>, j: nat) -> Seq<KeyCode>
    decreases label.len(), label.len() - j,
{
    if j + 3 > label.len() {
        seq![key_named(label)]
    } else if label.subrange(j as int, (j + 3) as int) == seq![' ', '/', ' '] {
        seq![key_named(label.take(j as int))] + keys_named_from(label.skip((j + 3) as int), 0)
    } else {
        keys_named_from(label, j + 1)
    }
}

/// The keys a help label names: key names separated by ` / `.
pub open spec fn keys_named(label: Seq<char>) -> Seq<KeyCode> {
    keys_named_from(label, 0)
}

/// Help tells the truth: the keys each binding runs on are exactly those its
/// label names, so a key that help lists (`h` for the previous move) runs
/// that binding's command, and no key runs one that help does not list.
pub proof fn law_labels_name_the_keys(k: int)
    requires
        0 <= k < table().len(),
    ensures
        table()[k].0 == keys_named(help_entries()[k].0),
        table().len() == help_entries().len(),
{
    let t = table();
    let h = help_entries();
    if k == 0 {
        lemma_two_names('→', 'l');
        assert(h[0].0 == seq!['→', ' ', '/', ' ', 'l']);
        lemma_one_name('→');
        lemma_one_name('l');
        assert(t[0].0 =~= keys_named(h[0].0));
    } else if k == 1 {
        lemma_two_names('←', 'h');
        assert(h[1].0 == seq!['←', ' ', '/', ' ', 'h']);
        lemma_one_name('←');
        lemma_one_name('h');
        assert(t[1].0 =~= keys_named(h[1].0));
    } else if k == 5 {
        let l = seq!['E', 's', 'c'];
        assert(h[5].0 == l);
        assert(l.subrange(0, 3) =~= l);
        assert(keys_named_from(l, 1) == seq![key_named(l)]);
        assert(keys_named(l) == seq![key_named(l)]);
        assert(t[5].0 =~= keys_named(h[5].0));
    } else {
        let c = if k == 2 { 'g' } else if k == 3 { 'G' } else if k == 4 { '?' } else { 'q' };
        let l = seq![c];
        assert(h[k].0 == l);
        assert(keys_named(l) == seq![key_named(l)]);
        lemma_one_name(c);
        assert(t[k].0 =~= keys_named(h[k].0));
    }
}

/// A one-character name that is no arrow names that character's key; an
/// arrow names its direction.
proof fn lemma_one_name(c: char)
    ensures
        c != '→' && c != '←' && c != '↑' && c != '↓' ==> key_named(seq![c]) == KeyCode::Char(c),
        c == '→' ==> key_named(seq![c]) == KeyCode::Right,
        c == '←' ==> key_named(seq![c]) == KeyCode::Left,
{
    let l = seq![c];
    assert(l[0] == c);
    assert(seq!['→'][0] == '→');
    assert(seq!['←'][0] == '←');
    assert(seq!['↑'][0] == '↑');
    assert(seq!['↓'][0] == '↓');
    if c == '→' {
        assert(l =~= seq!['→']);
    }
    if c == '←' {
        assert(l =~= seq!['←']);
    }
    if c != '→' && c != '←' && c != '↑' && c != '↓' {
        assert(l != seq!['→']) by {
            if l == seq!['→'] {
                assert(l[0] == seq!['→'][0]);
            }
        }
        assert(l != seq!['←']) by {
            if l == seq!['←'] {
                assert(l[0] == seq!['←'][0]);
            }
        }
        assert(l != seq!['↑']) by {
            if l == seq!['↑'] {
                assert(l[0] == seq!['↑'][0]);
            }
        }
        assert(l != seq!['↓']) by {
            if l == seq!['↓'] {
                assert(l[0] == seq!['↓'][0]);
            }
        }
        assert(l.len() == 1);
        assert(seq!['E', 's', 'c'].len() == 3);
        assert(seq!['E', 'n', 't', 'e', 'r'].len() == 5);
    }
}

/// A label of two one-character names names those two keys.
proof fn lemma_two_names(a: char, b: char)
    requires
        a != ' ',
    ensures
        keys_named(seq![a, ' ', '/', ' ', b]) == seq![key_named(seq![a]), key_named(seq![b])],
{
    let l = seq![a, ' ', '/', ' ', b];
    assert(l.subrange(0, 3) != seq![' ', '/', ' ']) by {
        assert(l.subrange(0, 3)[0] == a);
    }
    assert(l.subrange(1, 4) =~= seq![' ', '/', ' ']);
    assert(l.take(1) =~= seq![a]);
    assert(l.skip(4) =~= seq![b]);
    assert(keys_named_from(seq![b], 0) == seq![key_named(seq![b])]);
    assert(keys_named_from(l, 1) == seq![key_named(seq![a])] + seq![key_named(seq![b])]);
    assert(keys_named_from(l, 0) == keys_named_from(l, 1));
    assert(seq![key_named(seq![a])] + seq![key_named(seq![b])] =~= seq![
        key_named(seq![a]),
        key_named(seq![b]),
    ]);
}

} // verus!
