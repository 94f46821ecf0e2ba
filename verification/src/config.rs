//! The settings of the password generator, and the generator.
//!
//! The vault stores the settings and hands them back; it does not read
//! them.

use crate::platform::{choose_char, choose_chars, shuffle_chars, string_of_chars};
use vstd::prelude::*;

verus! {

/// How passwords are generated: their length, and which kinds of character
/// they hold, with how many at least of some kinds.
#[derive(Debug, PartialEq, Eq, Structural)]
pub struct UserSettings {
    pub password_length: u8,
    pub min_password_length: u8,
    pub use_num: bool,
    pub min_num: u8,
    pub use_symbol: bool,
    pub min_symbol: u8,
    pub use_lower: bool,
    pub use_upper: bool,
}

impl Clone for UserSettings {
    fn clone(&self) -> (copy: Self)
        ensures
            copy == *self,
    {
        UserSettings {
            password_length: self.password_length,
            min_password_length: self.min_password_length,
            use_num: self.use_num,
            min_num: self.min_num,
            use_symbol: self.use_symbol,
            min_symbol: self.min_symbol,
            use_lower: self.use_lower,
            use_upper: self.use_upper,
        }
    }
}

impl UserSettings {
    /// The settings of a new vault: passwords of 14 characters of all four
    /// kinds, with two digits and two symbols at least.
    pub open spec fn default_spec() -> UserSettings {
        UserSettings {
            password_length: 14,
            min_password_length: 10,
            use_num: true,
            min_num: 2,
            use_symbol: true,
            min_symbol: 2,
            use_lower: true,
            use_upper: true,
        }
    }
}

/// The digits.
fn numbers() -> (pool: Vec<char>)
    ensures
        pool@ == UserSettings::digits(),
{
    vec!['0', '1', '2', '3', '4', '5', '6', '7', '8', '9']
}

/// The symbols.
fn symbols() -> (pool: Vec<char>)
    ensures
        pool@ == UserSettings::symbols(),
{
    vec!['!', '@', '#', '$', '%', '^', '&', '*']
}

/// The small letters.
fn lowercase_letters() -> (pool: Vec<char>)
    ensures
        pool@ == UserSettings::lowercase(),
{
    vec![
        'a', 'b', 'c', 'd', 'e', 'f', 'g', 'h', 'i', 'j', 'k', 'l', 'm', 'n', 'o', 'p', 'q', 'r',
        's', 't', 'u', 'v', 'w', 'x', 'y', 'z',
    ]
}

/// The capital letters.
fn uppercase_letters() -> (pool: Vec<char>)
    ensures
        pool@ == UserSettings::uppercase(),
{
    vec![
        'A', 'B', 'C', 'D', 'E', 'F', 'G', 'H', 'I', 'J', 'K', 'L', 'M', 'N', 'O', 'P', 'Q', 'R',
        'S', 'T', 'U', 'V', 'W', 'X', 'Y', 'Z',
    ]
}

impl UserSettings {
    /// The digits.
    pub open spec fn digits() -> Seq<char> {
        seq!['0', '1', '2', '3', '4', '5', '6', '7', '8', '9']
    }

    /// The symbols.
    pub open spec fn symbols() -> Seq<char> {
        seq!['!', '@', '#', '$', '%', '^', '&', '*']
    }

    /// The small letters.
    pub open spec fn lowercase() -> Seq<char> {
        seq![
            'a', 'b', 'c', 'd', 'e', 'f', 'g', 'h', 'i', 'j', 'k', 'l', 'm', 'n', 'o', 'p', 'q',
            'r', 's', 't', 'u', 'v', 'w', 'x', 'y', 'z',
        ]
    }

    /// The capital letters.
    pub open spec fn uppercase() -> Seq<char> {
        seq![
            'A', 'B', 'C', 'D', 'E', 'F', 'G', 'H', 'I', 'J', 'K', 'L', 'M', 'N', 'O', 'P', 'Q',
            'R', 'S', 'T', 'U', 'V', 'W', 'X', 'Y', 'Z',
        ]
    }

    /// The characters that a password may hold: those of every kind that
    /// the settings ask for.
    pub open spec fn pool(self) -> Seq<char> {
        (if self.use_num {
            Self::digits()
        } else {
            Seq::<char>::empty()
        }) + (if self.use_symbol {
            Self::symbols()
        } else {
            Seq::<char>::empty()
        }) + (if self.use_lower {
            Self::lowercase()
        } else {
            Seq::<char>::empty()
        }) + (if self.use_upper {
            Self::uppercase()
        } else {
            Seq::<char>::empty()
        })
    }

    /// How many digits are drawn first: as many as asked for, and ten at
    /// most.
    pub open spec fn digit_count(self) -> nat {
        if !self.use_num {
            0
        } else if self.min_num <= 10 {
            self.min_num as nat
        } else {
            10
        }
    }

    /// How many symbols are drawn next: as many as asked for, and eight at
    /// most.
    pub open spec fn symbol_count(self) -> nat {
        if !self.use_symbol {
            0
        } else if self.min_symbol <= 8 {
            self.min_symbol as nat
        } else {
            8
        }
    }

    /// How many characters are drawn because a kind asks for them.
    pub open spec fn required_len(self) -> nat {
        self.digit_count() + self.symbol_count() + (if self.use_lower {
            1nat
        } else {
            0
        }) + (if self.use_upper {
            1nat
        } else {
            0
        })
    }

    /// How long a generated password is: as long as asked for, and longer
    /// where the kinds ask for more.
    pub open spec fn generated_len(self) -> nat {
        if self.required_len() <= self.password_length {
            self.password_length as nat
        } else {
            self.required_len()
        }
    }

    /// Whether a password can be generated: some kind of character is asked
    /// for, or no character at all.
    pub open spec fn can_generate(self) -> bool {
        ||| self.use_num
        ||| self.use_symbol
        ||| self.use_lower
        ||| self.use_upper
        ||| self.password_length == 0
    }

    /// Whether `required` is what the generator may draw for the kinds: the
    /// digits asked for, then the symbols, then a small letter and a capital
    /// letter where they are asked for.
    pub open spec fn is_required_draw(self, required: Seq<char>) -> bool {
        let digits = self.digit_count() as int;
        let symbols = self.symbol_count() as int;
        let lower = if self.use_lower {
            1int
        } else {
            0
        };
        &&& required.len() == self.required_len()
        &&& forall|i: int| 0 <= i < digits ==> Self::digits().contains(#[trigger] required[i])
        &&& forall|i: int|
            digits <= i < digits + symbols ==> Self::symbols().contains(#[trigger] required[i])
        &&& self.use_lower ==> Self::lowercase().contains(required[digits + symbols])
        &&& self.use_upper ==> Self::uppercase().contains(required[digits + symbols + lower])
    }

    /// Whether `drawn` is what the generator may draw before it shuffles:
    /// what the kinds ask for, then characters of the pool up to the length.
    pub open spec fn is_draw(self, drawn: Seq<char>) -> bool {
        &&& drawn.len() == self.generated_len()
        &&& self.is_required_draw(drawn.subrange(0, self.required_len() as int))
        &&& forall|i: int|
            self.required_len() <= i < drawn.len() ==> self.pool().contains(#[trigger] drawn[i])
    }

    /// A random password after the settings: the characters that the kinds
    /// ask for and random characters of the pool up to the length, shuffled.
    pub fn generate_password(&self) -> (password: String)
        requires
            self.can_generate(),
        ensures
            password@.len() == self.generated_len(),
            exists|drawn: Seq<char>| #[trigger]
                self.is_draw(drawn) && password@.to_multiset() == drawn.to_multiset(),
    {
        let numbers = numbers();
        let symbols = symbols();
        let lowercase = lowercase_letters();
        let uppercase = uppercase_letters();
        let mut character_pool: Vec<char> = Vec::new();
        let mut password: Vec<char> = Vec::new();
        if self.use_num {
            let mut copy = numbers.clone();
            character_pool.append(&mut copy);
            let mut drawn = choose_chars(numbers.as_slice(), self.min_num as usize);
            password.append(&mut drawn);
        }
        assert(password@.len() == self.digit_count());
        let ghost after_digits = password@;
        if self.use_symbol {
            let mut copy = symbols.clone();
            character_pool.append(&mut copy);
            let mut drawn = choose_chars(symbols.as_slice(), self.min_symbol as usize);
            password.append(&mut drawn);
        }
        assert(password@.len() == self.digit_count() + self.symbol_count());
        let ghost after_symbols = password@;
        assert(forall|i: int|
            0 <= i < after_digits.len() ==> after_symbols[i] == #[trigger] after_digits[i]);
        if self.use_lower {
            let mut copy = lowercase.clone();
            character_pool.append(&mut copy);
            let letter = match choose_char(lowercase.as_slice()) {
                Some(letter) => letter,
                None => 'a',
            };
            password.push(letter);
        }
        if self.use_upper {
            let mut copy = uppercase.clone();
            character_pool.append(&mut copy);
            let letter = match choose_char(uppercase.as_slice()) {
                Some(letter) => letter,
                None => 'A',
            };
            password.push(letter);
        }
        assert(character_pool@ =~= self.pool());
        let ghost required = password@;
        assert(forall|i: int|
            0 <= i < after_symbols.len() ==> required[i] == #[trigger] after_symbols[i]);
        assert(self.is_required_draw(required));
        while password.len() < self.password_length as usize
            invariant
                character_pool@ == self.pool(),
                self.can_generate(),
                password@.len() >= required.len(),
                password@.len() <= self.generated_len(),
                self.is_required_draw(required),
                password@.subrange(0, required.len() as int) == required,
                forall|i: int|
                    required.len() <= i < password@.len() ==> self.pool().contains(
                        #[trigger] password@[i],
                    ),
            decreases self.password_length - password@.len(),
        {
            let ghost before = password@;
            match choose_char(character_pool.as_slice()) {
                Some(c) => {
                    password.push(c);
                },
                None => {
                    assert(self.pool().len() == 0);
                    assert(false);
                },
            }
            assert(password@.subrange(0, required.len() as int) =~= before.subrange(
                0,
                required.len() as int,
            ));
        }
        let ghost drawn = password@;
        assert(self.is_draw(drawn));
        shuffle_chars(&mut password);
        proof {
            drawn.to_multiset_ensures();
            password@.to_multiset_ensures();
        }
        string_of_chars(password.as_slice())
    }
}

impl Default for UserSettings {
    /// The settings of a new vault.
    fn default() -> (settings: Self)
        ensures
            settings == UserSettings::default_spec(),
    {
        UserSettings {
            password_length: 14,
            min_password_length: 10,
            use_num: true,
            min_num: 2,
            use_symbol: true,
            min_symbol: 2,
            use_lower: true,
            use_upper: true,
        }
    }
}

} // verus!
