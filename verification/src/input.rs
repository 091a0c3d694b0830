//! The set of keys held down, kept up to date from key events.

use vstd::prelude::*;

verus! {

/// The keys currently held down, each named by its key code
/// (such as `ArrowLeft`). A code is held at most once.
pub struct Input {
    keys: Vec<String>,
}

impl Input {
    /// The key codes held down.
    pub closed spec fn held(&self) -> Set<Seq<char>> {
        Set::new(|code: Seq<char>| exists|i: int| 0 <= i < self.keys.len() && self.keys[i]@ == code)
    }

    #[verifier::type_invariant]
    spec fn no_code_twice(&self) -> bool {
        forall|i: int, j: int|
            0 <= i < self.keys.len() && 0 <= j < self.keys.len() && i != j
                ==> self.keys[i]@ != self.keys[j]@
    }

    /// The index at which `code` is held, if it is.
    fn position(&self, code: &String) -> (res: Option<usize>)
        ensures
            match res {
                Some(i) => i < self.keys.len() && self.keys[i as int]@ == code@,
                None => !self.held().contains(code@),
            },
    {
        let mut i: usize = 0;
        while i < self.keys.len()
            invariant
                i <= self.keys.len(),
                forall|j: int| 0 <= j < i ==> self.keys[j]@ != code@,
            decreases self.keys.len() - i,
        {
            if self.keys[i] == *code {
                return Some(i);
            }
            i = i + 1;
        }
        None
    }

    /// No key held down.
    pub fn new() -> (res: Input)
        ensures
            res.held() == Set::<Seq<char>>::empty(),
    {
        let res = Input { keys: Vec::new() };
        assert(res.held() =~= Set::<Seq<char>>::empty());
        res
    }

    /// Whether the key with this code is held down.
    pub fn is_key_down(&self, code: &str) -> (down: bool)
        ensures
            down == self.held().contains(code@),
    {
        let code = String::from_str(code);
        self.position(&code).is_some()
    }

    /// A key went down. An event that repeats a held key (auto-repeat)
    /// changes nothing; otherwise the code is held from now on.
    pub fn key_down(&mut self, code: String, repeat: bool)
        ensures
            repeat ==> final(self).held() == old(self).held(),
            !repeat ==> final(self).held() == old(self).held().insert(code@),
    {
        if repeat {
            return;
        }
        proof { use_type_invariant(&*self); }
        if self.position(&code).is_none() {
            let ghost before = self.keys@;
            let ghost old_held = self.held();
            let ghost c = code@;
            let mut keys: Vec<String> = Vec::new();
            std::mem::swap(&mut keys, &mut self.keys);
            keys.push(code);
            self.keys = keys;
            assert(self.held() =~= old_held.insert(c)) by {
                assert(self.keys@ == before.push(self.keys@.last()));
                assert forall|k: Seq<char>| old_held.contains(k) implies #[trigger] self.held().contains(k) by {
                    let i = choose|i: int| 0 <= i < before.len() && before[i]@ == k;
                    assert(self.keys[i] == before[i]);
                }
                assert forall|k: Seq<char>| #[trigger] self.held().contains(k) && k != c implies old_held.contains(k) by {
                    let i = choose|i: int| 0 <= i < self.keys.len() && self.keys[i]@ == k;
                    assert(i < before.len());
                    assert(self.keys[i] == before[i]);
                }
                assert(self.keys[before.len() as int]@ == c);
            }
        }
    }

    /// A key went up: its code is no longer held.
    pub fn key_up(&mut self, code: &str)
        ensures
            final(self).held() == old(self).held().remove(code@),
    {
        proof { use_type_invariant(&*self); }
        let code = String::from_str(code);
        match self.position(&code) {
            Some(i) => {
                let ghost before = self.keys@;
                let ghost old_held = self.held();
                let mut keys: Vec<String> = Vec::new();
                std::mem::swap(&mut keys, &mut self.keys);
                let _ = keys.remove(i);
                assert(forall|j: int| 0 <= j < i ==> keys[j] == before[j]);
                assert(forall|j: int| i <= j < keys.len() ==> keys[j] == before[j + 1]);
                self.keys = keys;
                assert(self.held() =~= old_held.remove(code@)) by {
                    assert forall|k: Seq<char>| #[trigger] self.held().contains(k) implies old_held.contains(k) && k != code@ by {
                        let j = choose|j: int| 0 <= j < self.keys.len() && self.keys[j]@ == k;
                        if j < i {
                            assert(self.keys[j] == before[j]);
                        } else {
                            assert(self.keys[j] == before[j + 1]);
                        }
                    }
                    assert forall|k: Seq<char>| old_held.contains(k) && k != code@ implies #[trigger] self.held().contains(k) by {
                        let j = choose|j: int| 0 <= j < before.len() && before[j]@ == k;
                        if j < i {
                            assert(self.keys[j] == before[j]);
                        } else {
                            assert(j != i);
                            assert(self.keys[j - 1] == before[j]);
                        }
                    }
                }
            },
            None => {
                assert(self.held() =~= self.held().remove(code@));
            },
        }
    }
}


/// A key pressed and released again, where it was not held before, leaves
/// the held keys as they were.
pub proof fn law_press_release_restores(input: Input, code: Seq<char>)
    requires
        !input.held().contains(code),
    ensures
        input.held().insert(code).remove(code) == input.held(),
{
    assert(input.held().insert(code).remove(code) =~= input.held());
}

/// After a key goes down it reads as held, and after it goes up it reads as
/// not held; no other key changes either way.
pub proof fn law_events_touch_one_key(input: Input, code: Seq<char>, other: Seq<char>)
    requires
        other != code,
    ensures
        input.held().insert(code).contains(code),
        !input.held().remove(code).contains(code),
        input.held().insert(code).contains(other) == input.held().contains(other),
        input.held().remove(code).contains(other) == input.held().contains(other),
{
}

/// Pressing a key twice, or releasing it twice, is the same as doing so once.
pub proof fn law_events_idempotent(input: Input, code: Seq<char>)
    ensures
        input.held().insert(code).insert(code) == input.held().insert(code),
        input.held().remove(code).remove(code) == input.held().remove(code),
{
    assert(input.held().insert(code).insert(code) =~= input.held().insert(code));
    assert(input.held().remove(code).remove(code) =~= input.held().remove(code));
}

} // verus!
