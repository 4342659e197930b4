# hwp_crypto

Decryption of protected HWP documents, verified with Verus.

- `viewtext`: sections of documents made for distribution. A first record (`record`) hides
  an AES-128 key behind a keystream (`distribute`, `lcg`); the rest of the section is
  encrypted under it block by block (`aes`).
- `password`: streams of documents with a password. The key comes from a SHA-1 digest
  (`sha1`), and the stream is in a cipher feedback mode of one bit (`cfb`).
- `aes_model`, `aes_mix`, `sbox`, `gf`: what AES computes and why decryption undoes
  encryption, down to the field arithmetic and the substitution tables.
- `inflate`: decompression, through `miniz_oxide`.

Each function states what it returns over mathematical models; the proof functions whose
names start with `law_` state what holds between functions.

`app/` gives the errors `Display` and `std::error::Error`.
