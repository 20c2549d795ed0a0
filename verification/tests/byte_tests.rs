use sig_pattern::byte::{InvalidMaskError, Mask, PatternByte};
use std::str::FromStr;

#[test]
fn test_bit_and_u8() {
        assert_eq!(0xAB & Mask::Full, 0xAB);
        assert_eq!(0xAB & Mask::HighOnly, 0xA0);
        assert_eq!(0xAB & Mask::LowOnly, 0x0B);
        assert_eq!(0xAB & Mask::Wildcard, 0x00);
    }

#[test]
fn test_bit_and_mask() {
        assert_eq!(Mask::Full & Mask::Full, 0xFF);
        assert_eq!(Mask::Full & Mask::HighOnly, 0xF0);
        assert_eq!(Mask::Full & Mask::LowOnly, 0x0F);
        assert_eq!(Mask::Full & Mask::Wildcard, 0x00);
        assert_eq!(Mask::HighOnly & Mask::HighOnly, 0xF0);
        assert_eq!(Mask::HighOnly & Mask::LowOnly, 0x00);
        assert_eq!(Mask::HighOnly & Mask::Wildcard, 0x00);
        assert_eq!(Mask::LowOnly & Mask::LowOnly, 0x0F);
        assert_eq!(Mask::LowOnly & Mask::Wildcard, 0x00);
        assert_eq!(Mask::Wildcard & Mask::Wildcard, 0x00);
    }

#[test]
fn test_try_from_u8() {
        assert_eq!(Mask::try_from(0xFF), Ok(Mask::Full));
        assert_eq!(Mask::try_from(0xF0), Ok(Mask::HighOnly));
        assert_eq!(Mask::try_from(0x0F), Ok(Mask::LowOnly));
        assert_eq!(Mask::try_from(0x00), Ok(Mask::Wildcard));
        assert_eq!(Mask::try_from(0x12), Err(InvalidMaskError(0x12)));
    }

#[test]
fn byte_test_display() {
        assert_eq!(
            PatternByte {
                byte: 0xAB,
                mask: Mask::Full
            }
            .to_string(),
            "AB"
        );
        assert_eq!(
            PatternByte {
                byte: 0xAB,
                mask: Mask::HighOnly
            }
            .to_string(),
            "A?"
        );
        assert_eq!(
            PatternByte {
                byte: 0xAB,
                mask: Mask::LowOnly
            }
            .to_string(),
            "?B"
        );
        assert_eq!(
            PatternByte {
                byte: 0xAB,
                mask: Mask::Wildcard
            }
            .to_string(),
            "??"
        );
    }

#[test]
fn test_from_u8() {
        assert_eq!(
            PatternByte::from(0xAB),
            PatternByte {
                byte: 0xAB,
                mask: Mask::Full
            }
        );
        assert_eq!(
            PatternByte::from(0x12),
            PatternByte {
                byte: 0x12,
                mask: Mask::Full
            }
        );
    }

#[test]
fn byte_test_from_str() {
        assert_eq!(
            PatternByte::from_str("    "),
            Ok(PatternByte {
                byte: 0x00,
                mask: Mask::Full
            })
        );
        assert_eq!(
            PatternByte::from_str("  0  "),
            Ok(PatternByte {
                byte: 0x00,
                mask: Mask::Full
            })
        );
        assert_eq!(
            PatternByte::from_str("AB"),
            Ok(PatternByte {
                byte: 0xAB,
                mask: Mask::Full
            })
        );
        assert_eq!(
            PatternByte::from_str("0xA"),
            Ok(PatternByte {
                byte: 0x0A,
                mask: Mask::Full
            })
        );
        assert_eq!(
            PatternByte::from_str("0xAB"),
            Ok(PatternByte {
                byte: 0xAB,
                mask: Mask::Full
            })
        );
        assert_eq!(
            PatternByte::from_str("0X12"),
            Ok(PatternByte {
                byte: 0x12,
                mask: Mask::Full
            })
        );
        assert_eq!(
            PatternByte::from_str("0xA?"),
            Ok(PatternByte {
                byte: 0xA0,
                mask: Mask::HighOnly
            })
        );
        assert_eq!(
            PatternByte::from_str("0x?A"),
            Ok(PatternByte {
                byte: 0x0A,
                mask: Mask::LowOnly
            })
        );
        assert_eq!(
            PatternByte::from_str("0x??"),
            Ok(PatternByte {
                byte: 0x00,
                mask: Mask::Wildcard
            })
        );
        assert!(PatternByte::from_str("ABC").is_err());
        assert!(PatternByte::from_str("0xABC").is_err());
        assert!(PatternByte::from_str("X").is_err());
        assert!(PatternByte::from_str("???").is_err());
    }

#[test]
fn test_partial_eq_u8() {
        assert_eq!(
            PatternByte {
                byte: 0xAB,
                mask: Mask::Full
            },
            0xAB
        );
        assert_eq!(
            PatternByte {
                byte: 0xAB,
                mask: Mask::HighOnly
            },
            0xAB
        );
        assert_eq!(
            PatternByte {
                byte: 0xAB,
                mask: Mask::LowOnly
            },
            0xAB
        );
        assert_eq!(
            PatternByte {
                byte: 0xAB,
                mask: Mask::Wildcard
            },
            0xAB
        );
        assert_eq!(
            PatternByte {
                byte: 0xAB,
                mask: Mask::HighOnly
            },
            0xAA
        );
        assert_eq!(
            PatternByte {
                byte: 0xAB,
                mask: Mask::LowOnly
            },
            0xBB
        );
        assert_eq!(
            PatternByte {
                byte: 0xAB,
                mask: Mask::Wildcard
            },
            0xFF
        );
        assert_ne!(
            PatternByte {
                byte: 0xAB,
                mask: Mask::Full
            },
            0x12
        );
        assert_ne!(
            PatternByte {
                byte: 0xAB,
                mask: Mask::HighOnly
            },
            0xBA
        );
        assert_ne!(
            PatternByte {
                byte: 0xAB,
                mask: Mask::LowOnly
            },
            0xFF
        );
    }

#[test]
fn test_partial_ord_u8() {
        assert!(
            PatternByte {
                byte: 0xAB,
                mask: Mask::Full
            } <= 0xAB
        );
        assert!(
            PatternByte {
                byte: 0xAB,
                mask: Mask::Full
            } >= 0xAB
        );
        assert!(
            PatternByte {
                byte: 0x12,
                mask: Mask::Full
            } < 0xAB
        );
        assert!(
            PatternByte {
                byte: 0x12,
                mask: Mask::Full
            } > 0x10
        );
        assert!(
            PatternByte {
                byte: 0x12,
                mask: Mask::HighOnly
            } > 0x0F
        );
        assert!(
            PatternByte {
                byte: 0x12,
                mask: Mask::HighOnly
            } < 0xFF
        );
        assert!(
            PatternByte {
                byte: 0x12,
                mask: Mask::LowOnly
            } > 0xF0
        );
        assert!(
            PatternByte {
                byte: 0x12,
                mask: Mask::LowOnly
            } < 0xFF
        );
        assert!(
            PatternByte {
                byte: 0x12,
                mask: Mask::Wildcard
            } <= 0xFF
        );
        assert!(
            PatternByte {
                byte: 0x12,
                mask: Mask::Wildcard
            } >= 0x00
        );
    }

#[test]
fn test_new() {
        assert_eq!(
            PatternByte::new(0xAB, Mask::Full),
            PatternByte {
                byte: 0xAB,
                mask: Mask::Full
            }
        );
        assert_eq!(
            PatternByte::new(0x12, Mask::HighOnly),
            PatternByte {
                byte: 0x12,
                mask: Mask::HighOnly
            }
        );
        assert_eq!(
            PatternByte::new(0xCD, Mask::LowOnly),
            PatternByte {
                byte: 0xCD,
                mask: Mask::LowOnly
            }
        );
        assert_eq!(
            PatternByte::new(0xFF, Mask::Wildcard),
            PatternByte {
                byte: 0xFF,
                mask: Mask::Wildcard
            }
        );
    }

#[test]
fn test_try_from_u8_slice() {
        assert_eq!(
            PatternByte::try_from([b'A'].as_slice()),
            Ok(PatternByte {
                byte: 0x0A,
                mask: Mask::Full
            })
        );
        assert_eq!(
            PatternByte::try_from([b'3', b'B'].as_slice()),
            Ok(PatternByte {
                byte: 0x3B,
                mask: Mask::Full
            })
        );
        assert_eq!(
            PatternByte::try_from([b'A', b'B'].as_slice()),
            Ok(PatternByte {
                byte: 0xAB,
                mask: Mask::Full
            })
        );
        assert_eq!(
            PatternByte::try_from([b'A', b'?'].as_slice()),
            Ok(PatternByte {
                byte: 0xA0,
                mask: Mask::HighOnly
            })
        );
        assert_eq!(
            PatternByte::try_from([b'?', b'B'].as_slice()),
            Ok(PatternByte {
                byte: 0x0B,
                mask: Mask::LowOnly
            })
        );
        assert_eq!(
            PatternByte::try_from([b'?', b'?'].as_slice()),
            Ok(PatternByte {
                byte: 0x00,
                mask: Mask::Wildcard
            })
        );
        assert!(PatternByte::try_from([b'A', b'Z'].as_slice()).is_err());
        assert!(PatternByte::try_from([b'x'].as_slice()).is_err());
    }

#[test]
fn test_apply() {
        assert_eq!(
            PatternByte {
                byte: 0xAB,
                mask: Mask::Full
            }
            .apply(),
            0xAB
        );
        assert_eq!(
            PatternByte {
                byte: 0xAB,
                mask: Mask::HighOnly
            }
            .apply(),
            0xA0
        );
        assert_eq!(
            PatternByte {
                byte: 0xAB,
                mask: Mask::LowOnly
            }
            .apply(),
            0x0B
        );
        assert_eq!(
            PatternByte {
                byte: 0xAB,
                mask: Mask::Wildcard
            }
            .apply(),
            0x00
        );
    }

#[test]
fn byte_test_merge() {
        // 0xAB merge 0xAB = 0xAB
        let sut = PatternByte {
            byte: 0xAB,
            mask: Mask::Full,
        }
        .merge(PatternByte {
            byte: 0xAB,
            mask: Mask::Full,
        });
        assert_eq!(sut.byte, 0xAB);
        assert_eq!(sut.mask, Mask::Full);

        // 0xAB merge 0xAC = 0xA?
        let sut = PatternByte {
            byte: 0xAB,
            mask: Mask::Full,
        }
        .merge(PatternByte {
            byte: 0xAC,
            mask: Mask::Full,
        });
        assert_eq!(sut.byte, 0xAB);
        assert_eq!(sut.mask, Mask::HighOnly);

        // 0xAB merge 0xBB = 0x?B
        let sut = PatternByte {
            byte: 0xAB,
            mask: Mask::Full,
        }
        .merge(PatternByte {
            byte: 0xBB,
            mask: Mask::Full,
        });
        assert_eq!(sut.byte, 0xAB);
        assert_eq!(sut.mask, Mask::LowOnly);

        // 0xAB merge 0xBA = 0x??
        let sut = PatternByte {
            byte: 0xAB,
            mask: Mask::Full,
        }
        .merge(PatternByte {
            byte: 0xBA,
            mask: Mask::Full,
        });
        assert_eq!(sut.byte, 0xAB);
        assert_eq!(sut.mask, Mask::Wildcard);

        // 0xA? merge 0xAB = 0xA?
        let sut = PatternByte {
            byte: 0xAB,
            mask: Mask::HighOnly,
        }
        .merge(PatternByte {
            byte: 0xAB,
            mask: Mask::Full,
        });
        assert_eq!(sut.byte, 0xAB);
        assert_eq!(sut.mask, Mask::HighOnly);

        // 0xA? merge 0xA? = 0xA?
        let sut = PatternByte {
            byte: 0xAB,
            mask: Mask::HighOnly,
        }
        .merge(PatternByte {
            byte: 0xAB,
            mask: Mask::HighOnly,
        });
        assert_eq!(sut.byte, 0xAB);
        assert_eq!(sut.mask, Mask::HighOnly);

        // 0xA? merge 0xB? = 0x??
        let sut = PatternByte {
            byte: 0xAB,
            mask: Mask::HighOnly,
        }
        .merge(PatternByte {
            byte: 0xBA,
            mask: Mask::HighOnly,
        });
        assert_eq!(sut.byte, 0xAB);
        assert_eq!(sut.mask, Mask::Wildcard);

        // 0xA? merge 0x?B = 0x??
        let sut = PatternByte {
            byte: 0xAB,
            mask: Mask::HighOnly,
        }
        .merge(PatternByte {
            byte: 0xAB,
            mask: Mask::LowOnly,
        });
        assert_eq!(sut.byte, 0xAB);
        assert_eq!(sut.mask, Mask::Wildcard);

        // 0xA? merge 0x?? = 0x??
        let sut = PatternByte {
            byte: 0xAB,
            mask: Mask::HighOnly,
        }
        .merge(PatternByte {
            byte: 0xAB,
            mask: Mask::Wildcard,
        });
        assert_eq!(sut.byte, 0xAB);
        assert_eq!(sut.mask, Mask::Wildcard);

        // 0xA? merge 0xBA = 0x??
        let sut = PatternByte {
            byte: 0xAB,
            mask: Mask::HighOnly,
        }
        .merge(PatternByte {
            byte: 0xBA,
            mask: Mask::Full,
        });
        assert_eq!(sut.byte, 0xAB);
        assert_eq!(sut.mask, Mask::Wildcard);

        // 0x?B merge 0xAB = 0x?B
        let sut = PatternByte {
            byte: 0xAB,
            mask: Mask::LowOnly,
        }
        .merge(PatternByte {
            byte: 0xAB,
            mask: Mask::Full,
        });
        assert_eq!(sut.byte, 0xAB);
        assert_eq!(sut.mask, Mask::LowOnly);

        // 0x?B merge 0x?B = 0x?B
        let sut = PatternByte {
            byte: 0xAB,
            mask: Mask::LowOnly,
        }
        .merge(PatternByte {
            byte: 0xAB,
            mask: Mask::LowOnly,
        });
        assert_eq!(sut.byte, 0xAB);
        assert_eq!(sut.mask, Mask::LowOnly);

        // 0x?B merge 0x?C = 0x?B
        let sut = PatternByte {
            byte: 0xAB,
            mask: Mask::LowOnly,
        }
        .merge(PatternByte {
            byte: 0xAC,
            mask: Mask::LowOnly,
        });
        assert_eq!(sut.byte, 0xAB);
        assert_eq!(sut.mask, Mask::Wildcard);

        // 0x?B merge 0xAC = 0x??
        let sut = PatternByte {
            byte: 0xAB,
            mask: Mask::LowOnly,
        }
        .merge(PatternByte {
            byte: 0xAC,
            mask: Mask::Full,
        });
        assert_eq!(sut.byte, 0xAB);
        assert_eq!(sut.mask, Mask::Wildcard);

        // 0x?? merge 0x?? = 0x??
        let sut = PatternByte {
            byte: 0xAB,
            mask: Mask::Wildcard,
        }
        .merge(PatternByte {
            byte: 0xAB,
            mask: Mask::Wildcard,
        });
        assert_eq!(sut.byte, 0xAB);
        assert_eq!(sut.mask, Mask::Wildcard);
    }

