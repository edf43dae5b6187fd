//! The option table of a front end: which input mode it runs in, and how
//! that mode feeds text to the scanner.

use vstd::hash_map::StringHashMap;
use vstd::prelude::*;
use vstd::string::StrSliceExecFns;

verus! {

/// A table from option names to their values.
pub struct Options {
    pub options_map: StringHashMap<String>,
}

/// The table that every front end starts from: the input mode is `repl`,
/// and the `--repl` option, which says how the interactive mode reads, is
/// `per_line`.
pub open spec fn defaults() -> Map<Seq<char>, Seq<char>> {
    Map::<Seq<char>, Seq<char>>::empty().insert("input"@, "repl"@).insert("--repl"@, "per_line"@)
}

/// Whether an argument names an option: it starts with `-`.
pub open spec fn is_flag(arg: Seq<char>) -> bool {
    arg.len() > 0 && arg[0] == '-'
}

/// The table `table` after the arguments `args` are read from left to right,
/// with `current` the option that a value is stored under: an argument that
/// names an option becomes the current one, and any other argument becomes
/// the value of the current option, in place of an earlier one.
pub open spec fn load(table: Map<Seq<char>, Seq<char>>, current: Seq<char>, args: Seq<Seq<char>>)
    -> Map<Seq<char>, Seq<char>>
    decreases args.len(),
{
    if args.len() == 0 {
        table
    } else if is_flag(args[0]) {
        load(table, args[0], args.drop_first())
    } else {
        load(table.insert(current, args[0]), current, args.drop_first())
    }
}

/// The texts of a list of strings.
pub open spec fn texts(args: Seq<String>) -> Seq<Seq<char>> {
    args.map_values(|s: String| s@)
}

impl View for Options {
    type V = Map<Seq<char>, Seq<char>>;

    open spec fn view(&self) -> Map<Seq<char>, Seq<char>> {
        self.options_map@.map_values(|v: String| v@)
    }
}

/// Whether `arg` names an option.
fn names_option(arg: &str) -> (b: bool)
    ensures
        b == is_flag(arg@),
{
    !arg.is_empty() && arg.get_char(0) == '-'
}

impl Options {
    /// The table of defaults.
    pub fn new() -> (options: Options)
        ensures
            options@ == defaults(),
    {
        let mut options_with_defaults = StringHashMap::new();
        options_with_defaults.insert("input".to_owned(), "repl".to_owned());
        options_with_defaults.insert("--repl".to_owned(), "per_line".to_owned());
        let options = Options { options_map: options_with_defaults };
        assert(options@ =~= defaults());
        options
    }

    /// Reads the arguments of the program into the table. The first
    /// argument, the program's name, is passed over; a value that no option
    /// precedes is stored under `input`.
    ///
    /// The list holds the program's name at least.
    pub fn load_options(&mut self, args: Vec<String>)
        requires
            args.len() >= 1,
        ensures
            final(self)@ == load(old(self)@, "input"@, texts(args@).skip(1)),
    {
        let mut current_setting: String = "input".to_owned();
        let ghost all = texts(args@).skip(1);
        let mut i: usize = 1;
        assert(all.skip(0) =~= all);
        while i < args.len()
            invariant
                1 <= i <= args.len(),
                all == texts(args@).skip(1),
                load(self@, current_setting@, all.skip(i - 1)) == load(old(self)@, "input"@, all),
            decreases args.len() - i,
        {
            let ghost before = self@;
            let ghost rest = all.skip(i - 1);
            assert(rest[0] == args@[i as int]@);
            assert(rest.drop_first() =~= all.skip(i as int));
            let arg = &args[i];
            if names_option(arg.as_str()) {
                current_setting = arg.clone();
            } else {
                self.options_map.insert(current_setting.clone(), arg.clone());
                assert(self@ =~= before.insert(current_setting@, arg@));
            }
            i = i + 1;
        }
    }

    /// The value of `option`, if the table has one.
    pub fn get(&self, option: &str) -> (value: Option<&String>)
        ensures
            match value {
                Some(v) => self@.contains_key(option@) && v@ == self@[option@],
                None => !self@.contains_key(option@),
            },
    {
        self.options_map.get(option)
    }
}

} // verus!
